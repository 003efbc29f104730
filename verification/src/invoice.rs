//! Response shapes of the invoice endpoints, and the mapping of joined
//! rows into them.
//!
//! These mirror the wire format: an invoice header, its line items
//! (optionally enriched with denormalized product fields from a join),
//! and the customer snapshot a read attaches from a left join — never
//! persisted with the invoice row itself.

use vstd::prelude::*;
use crate::money::Amount;
use crate::timestamp::Timestamp;

verus! {

/// The denormalized customer snapshot a read attaches to an invoice.
pub struct CustomerPartial {
    pub name: Option<String>,
    pub phone: Option<String>,
    pub address: Option<String>,
}

/// A sale invoice header as a response carries it.
pub struct SaleInvoice {
    pub id: i32,
    pub invoice_number: String,
    pub customer_id: Option<i32>,
    pub total_amount: Option<Amount>,
    pub invoice_date: Option<Timestamp>,
    pub notes: Option<String>,
    pub created_at: Option<Timestamp>,
    pub payment_date: Option<Timestamp>,
    pub is_active: Option<bool>,
    pub customers: Option<CustomerPartial>,
}

/// A sale invoice line item, optionally enriched with product fields
/// from a join; the product fields are never persisted.
pub struct SaleInvoiceItem {
    pub id: i32,
    pub invoice_id: Option<i32>,
    pub product_id: Option<i32>,
    pub quantity: Amount,
    pub unit_price: Amount,
    pub total_price: Amount,
    pub discount_auto: Option<Amount>,
    pub discount_manual: Option<Amount>,
    pub product_name: Option<String>,
    pub product_code: Option<String>,
    pub product_barcode: Option<String>,
    pub product_unit: Option<String>,
}

/// An invoice header together with its items, the single-invoice
/// response shape.
pub struct SaleInvoiceWithItems {
    pub invoice: SaleInvoice,
    pub items: Option<Vec<SaleInvoiceItem>>,
}

/// A purchase invoice row; structurally parallel to a sale invoice,
/// without line-item handling in this library.
pub struct PurchaseInvoice {
    pub id: i32,
    pub invoice_number: String,
    pub customer_id: Option<i32>,
    pub total_amount: Option<Amount>,
    pub invoice_date: Option<Timestamp>,
    pub notes: Option<String>,
    pub created_at: Option<Timestamp>,
    pub payment_date: Option<Timestamp>,
    pub is_active: Option<bool>,
}

/// Attaches the customer columns of a joined row to an invoice: the
/// snapshot is built exactly when the joined name is present, and the
/// invoice is otherwise left as it came.
pub fn attach_customer(
    invoice: SaleInvoice,
    customer_name: Option<String>,
    customer_phone: Option<String>,
    customer_address: Option<String>,
) -> (r: SaleInvoice)
    ensures
        r.id == invoice.id,
        r.invoice_number == invoice.invoice_number,
        r.customer_id == invoice.customer_id,
        r.total_amount == invoice.total_amount,
        r.invoice_date == invoice.invoice_date,
        r.notes == invoice.notes,
        r.created_at == invoice.created_at,
        r.payment_date == invoice.payment_date,
        r.is_active == invoice.is_active,
        customer_name is Some ==> r.customers is Some
            && r.customers->Some_0.name == Some(customer_name->Some_0)
            && r.customers->Some_0.phone == customer_phone
            && r.customers->Some_0.address == customer_address,
        customer_name is None ==> r.customers == invoice.customers,
{
    match customer_name {
        Some(name) => SaleInvoice {
            customers: Some(
                CustomerPartial { name: Some(name), phone: customer_phone, address: customer_address },
            ),
            ..invoice
        },
        None => invoice,
    }
}

} // verus!
