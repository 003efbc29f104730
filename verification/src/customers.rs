//! Customers: response shapes, the folder join mapping, and the
//! defaults a creation applies.

use vstd::prelude::*;
use crate::money::Amount;
use crate::timestamp::Timestamp;

verus! {

/// Query parameters of the customer list endpoint.
pub struct CustomerQuery {
    pub customer_type: Option<String>,
}

/// An error payload of the customer endpoints.
pub struct ErrorResponse {
    pub message: String,
}

/// A customer row as a response carries it.
pub struct Customer {
    pub id: i32,
    pub name: String,
    pub phone: Option<String>,
    pub email: Option<String>,
    pub address: Option<String>,
    pub created_at: Option<Timestamp>,
    pub updated_at: Option<Timestamp>,
    pub balance: Option<Amount>,
    pub folder_id: Option<i32>,
    pub code: Option<String>,
    pub is_active: Option<bool>,
    pub customer_type: Option<String>,
    pub permanent_discount: Option<Amount>,
}

/// A customer folder row.
pub struct CustomerFolder {
    pub id: i32,
    pub name: String,
    pub parent_id: Option<i32>,
    pub created_at: Option<Timestamp>,
    pub updated_at: Option<Timestamp>,
}

/// A customer with its folder, the list response shape.
pub struct CustomerWithFolder {
    pub customer: Customer,
    pub folder: Option<CustomerFolder>,
}

/// One flat row of the customer list join: the customer columns, then
/// the folder columns the left join may leave empty.
pub struct CustomerRow {
    pub id: i32,
    pub name: String,
    pub phone: Option<String>,
    pub email: Option<String>,
    pub address: Option<String>,
    pub created_at: Option<Timestamp>,
    pub updated_at: Option<Timestamp>,
    pub balance: Option<Amount>,
    pub folder_id: Option<i32>,
    pub code: Option<String>,
    pub is_active: Option<bool>,
    pub customer_type: Option<String>,
    pub permanent_discount: Option<Amount>,
    pub folder_id_join: Option<i32>,
    pub folder_name: Option<String>,
    pub folder_parent_id: Option<i32>,
}

/// The customer columns of a row.
pub open spec fn spec_customer_of_row(r: CustomerRow) -> Customer {
    Customer {
        id: r.id,
        name: r.name,
        phone: r.phone,
        email: r.email,
        address: r.address,
        created_at: r.created_at,
        updated_at: r.updated_at,
        balance: r.balance,
        folder_id: r.folder_id,
        code: r.code,
        is_active: r.is_active,
        customer_type: r.customer_type,
        permanent_discount: r.permanent_discount,
    }
}

/// Whether `f` is the folder the row's join columns describe: present
/// exactly when the join found one, with an absent joined name falling
/// back to the empty string, and no timestamps — the join does not
/// select them.
pub open spec fn spec_folder_matches(r: CustomerRow, f: Option<CustomerFolder>) -> bool {
    match r.folder_id_join {
        Some(fid) => f is Some && {
            let folder = f->Some_0;
            &&& folder.id == fid
            &&& match r.folder_name {
                Some(n) => folder.name == n,
                None => folder.name@ == Seq::<char>::empty(),
            }
            &&& folder.parent_id == r.folder_parent_id
            &&& folder.created_at is None
            &&& folder.updated_at is None
        },
        None => f is None,
    }
}

/// Maps one joined row to the customer-with-folder response shape.
pub fn map_customer_row(row: CustomerRow) -> (r: CustomerWithFolder)
    ensures
        r.customer == spec_customer_of_row(row),
        spec_folder_matches(row, r.folder),
{
    let folder = match row.folder_id_join {
        Some(fid) => {
            let name = match row.folder_name {
                Some(n) => n,
                None => String::new(),
            };
            Some(
                CustomerFolder {
                    id: fid,
                    name,
                    parent_id: row.folder_parent_id,
                    created_at: None,
                    updated_at: None,
                },
            )
        },
        None => None,
    };
    let customer = Customer {
        id: row.id,
        name: row.name,
        phone: row.phone,
        email: row.email,
        address: row.address,
        created_at: row.created_at,
        updated_at: row.updated_at,
        balance: row.balance,
        folder_id: row.folder_id,
        code: row.code,
        is_active: row.is_active,
        customer_type: row.customer_type,
        permanent_discount: row.permanent_discount,
    };
    CustomerWithFolder { customer, folder }
}

/// Maps every joined row, preserving row order.
pub fn map_customer_rows(rows: Vec<CustomerRow>) -> (r: Vec<CustomerWithFolder>)
    ensures
        r@.len() == rows@.len(),
        forall|k: int|
            0 <= k < rows@.len() ==> (#[trigger] r@[k]).customer == spec_customer_of_row(rows@[k])
                && spec_folder_matches(rows@[k], r@[k].folder),
{
    let ghost orig = rows@;
    let mut rows = rows;
    let mut out: Vec<CustomerWithFolder> = Vec::new();
    while rows.len() > 0
        invariant
            out@.len() + rows@.len() == orig.len(),
            rows@ =~= orig.skip(out@.len() as int),
            forall|k: int|
                0 <= k < out@.len() ==> (#[trigger] out@[k]).customer == spec_customer_of_row(
                    orig[k],
                ) && spec_folder_matches(orig[k], out@[k].folder),
        decreases rows@.len(),
    {
        let row = rows.remove(0);
        proof {
            assert(row == orig[out@.len() as int]);
            assert(rows@ =~= orig.skip(out@.len() as int + 1));
        }
        let mapped = map_customer_row(row);
        out.push(mapped);
    }
    out
}

/// The stored values a customer creation falls back to: active, and
/// the buyer type.
pub fn customer_insert_defaults(is_active: Option<bool>, customer_type: Option<String>) -> (r: (
    bool,
    String,
))
    ensures
        r.0 == (match is_active {
            Some(b) => b,
            None => true,
        }),
        match customer_type {
            Some(t) => r.1 == t,
            None => r.1@ == "BUYER"@,
        },
{
    let active = match is_active {
        Some(b) => b,
        None => true,
    };
    let t = match customer_type {
        Some(t) => t,
        None => String::from_str("BUYER"),
    };
    (active, t)
}

} // verus!
