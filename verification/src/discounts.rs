//! Discounts: query parameters and the stored document shapes.

use vstd::prelude::*;
use crate::money::Amount;
use crate::timestamp::Timestamp;

verus! {

/// Query parameters of the discount document endpoint.
pub struct DiscountQuery {
    pub discount_type: Option<String>,
    pub active_only: Option<bool>,
    pub entity_id: Option<i32>,
}

/// A discount as the document endpoint reports it.
pub struct DiscountResponse {
    pub id: i32,
    pub name: String,
    pub amount: Amount,
    pub is_percentage: bool,
}

/// A per-product discount row.
pub struct ProductDiscount {
    pub id: i32,
    pub product_id: i32,
    pub percentage: Amount,
    pub start_date: Timestamp,
    pub end_date: Timestamp,
    pub is_active: Option<bool>,
    pub created_at: Option<Timestamp>,
}

/// A discount document row.
pub struct DiscountDocument {
    pub id: i32,
    pub document_number: String,
    pub document_date: Timestamp,
    pub start_date: Option<Timestamp>,
    pub end_date: Option<Timestamp>,
    pub document_type: String,
    pub entity_id: Option<i32>,
    pub is_active: Option<bool>,
    pub notes: Option<String>,
    pub created_at: Option<Timestamp>,
}

/// A line of a discount document.
pub struct DiscountDocumentItem {
    pub id: i32,
    pub document_id: i32,
    pub product_id: Option<i32>,
    pub discount_percent: Amount,
    pub description: Option<String>,
}

} // verus!
