//! Verified core of an inventory and invoicing backend.
//!
//! The library holds the logic of the service: sequential invoice-number
//! generation, exact decimal money sums, the invoice transaction semantics
//! over a header table and an item table, grouping of flat join rows into
//! nested response objects, pagination, and the sort allow-list. I/O lives
//! outside; every function here is verified.

pub mod customers;
pub mod discounts;
pub mod invoice;
pub mod logs;
pub mod money;
pub mod notifications;
pub mod numbering;
pub mod orders;
pub mod paging;
pub mod products;
pub mod sorting;
pub mod timestamp;
