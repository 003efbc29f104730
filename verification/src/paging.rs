//! Pagination of list endpoints: defaults, offset computation, and the
//! page envelope that every list response carries.

use vstd::prelude::*;

verus! {

/// Page number a list request falls back to when none is given.
pub const DEFAULT_PAGE: i64 = 1;

/// Page size a list request falls back to when none is given.
pub const DEFAULT_LIMIT: i64 = 50;

/// The pagination block of a list response envelope.
pub struct PaginationMeta {
    pub page: i64,
    pub limit: i64,
    pub total: i64,
}

/// A page of rows together with its pagination block.
pub struct PaginatedResponse<T> {
    pub data: Vec<T>,
    pub pagination: PaginationMeta,
}

/// The page number a request resolves to: the given one, or the default.
pub open spec fn spec_effective_page(page: Option<i64>) -> i64 {
    match page {
        Some(p) => p,
        None => DEFAULT_PAGE,
    }
}

/// The page size a request resolves to: the given one, or the default.
pub open spec fn spec_effective_limit(limit: Option<i64>) -> i64 {
    match limit {
        Some(l) => l,
        None => DEFAULT_LIMIT,
    }
}

/// The row offset of a page: `(page - 1) * limit`, as a mathematical integer.
pub open spec fn spec_offset(page: i64, limit: i64) -> int {
    (page - 1) * limit
}

/// Resolves the optional `page` parameter of a list request.
pub fn effective_page(page: Option<i64>) -> (r: i64)
    ensures
        r == spec_effective_page(page),
{
    match page {
        Some(p) => p,
        None => DEFAULT_PAGE,
    }
}

/// Resolves the optional `limit` parameter of a list request.
pub fn effective_limit(limit: Option<i64>) -> (r: i64)
    ensures
        r == spec_effective_limit(limit),
{
    match limit {
        Some(l) => l,
        None => DEFAULT_LIMIT,
    }
}

/// The row offset of a page. `None` exactly when `(page - 1) * limit`
/// does not fit in an `i64`; the offset is never silently wrapped.
pub fn page_offset(page: i64, limit: i64) -> (r: Option<i64>)
    ensures
        r is Some <==> i64::MIN <= spec_offset(page, limit) <= i64::MAX,
        r is Some ==> r->Some_0 == spec_offset(page, limit),
{
    let p = (page as i128) - 1;
    let l = limit as i128;
    proof {
        assert(i128::MIN <= p * l <= i128::MAX) by (nonlinear_arith)
            requires
                -0x8000_0000_0000_0001i128 <= p <= 0x8000_0000_0000_0000i128,
                -0x8000_0000_0000_0000i128 <= l <= 0x7fff_ffff_ffff_ffffi128,
        ;
    }
    let off = p * l;
    proof {
        assert(off == spec_offset(page, limit));
    }
    if off >= i64::MIN as i128 && off <= i64::MAX as i128 {
        Some(off as i64)
    } else {
        None
    }
}

} // verus!
