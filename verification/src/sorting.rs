//! The sort allow-list of the order list endpoint, and the safe query
//! fragments built from request parameters.
//!
//! A caller-supplied sort name is mapped onto a closed set of columns
//! — anything unknown falls back to the creation time — so the ORDER
//! BY text is always one of five fixed strings and never carries
//! caller text. A search string becomes a contains-pattern that is
//! bound as a parameter, never spliced into the statement.

use vstd::prelude::*;

verus! {

/// A sortable column of the order list: the closed allow-list.
#[derive(Clone, Copy, Debug, PartialEq, Eq, Structural)]
pub enum SortColumn {
    InvoiceNumber,
    InvoiceDate,
    TotalAmount,
    CustomerName,
    CreatedAt,
}

/// A sort direction.
#[derive(Clone, Copy, Debug, PartialEq, Eq, Structural)]
pub enum SortDirection {
    Asc,
    Desc,
}

/// The column a request's `sort_by` resolves to; an absent or unknown
/// name falls back to the creation time.
pub open spec fn spec_sort_column(sort_by: Option<Seq<char>>) -> SortColumn {
    match sort_by {
        Some(s) => {
            if s == "invoice_number"@ {
                SortColumn::InvoiceNumber
            } else if s == "invoice_date"@ {
                SortColumn::InvoiceDate
            } else if s == "total_amount"@ {
                SortColumn::TotalAmount
            } else if s == "customers"@ || s == "customer_name"@ {
                SortColumn::CustomerName
            } else {
                SortColumn::CreatedAt
            }
        },
        None => SortColumn::CreatedAt,
    }
}

/// The direction a request's `order` resolves to; everything but
/// `asc` falls back to descending.
pub open spec fn spec_sort_direction(order: Option<Seq<char>>) -> SortDirection {
    match order {
        Some(s) => {
            if s == "asc"@ {
                SortDirection::Asc
            } else {
                SortDirection::Desc
            }
        },
        None => SortDirection::Desc,
    }
}

/// The ORDER BY column text of an allow-listed column: always one of
/// five fixed strings.
pub open spec fn spec_sql_sort_column(c: SortColumn) -> Seq<char> {
    match c {
        SortColumn::InvoiceNumber => "i.invoice_number"@,
        SortColumn::InvoiceDate => "i.invoice_date"@,
        SortColumn::TotalAmount => "i.total_amount"@,
        SortColumn::CustomerName => "c.name"@,
        SortColumn::CreatedAt => "i.created_at"@,
    }
}

/// The direction keyword.
pub open spec fn spec_sql_sort_direction(d: SortDirection) -> Seq<char> {
    match d {
        SortDirection::Asc => "ASC"@,
        SortDirection::Desc => "DESC"@,
    }
}

/// Whether two strings hold the same characters.
fn str_equal(a: &str, b: &str) -> (r: bool)
    ensures
        r <==> a@ == b@,
{
    let la = a.unicode_len();
    let lb = b.unicode_len();
    if la != lb {
        return false;
    }
    let mut i: usize = 0;
    while i < la
        invariant
            0 <= i <= la,
            la == a@.len(),
            la == b@.len(),
            forall|j: int| 0 <= j < i ==> a@[j] == b@[j],
        decreases la - i,
    {
        if a.get_char(i) != b.get_char(i) {
            return false;
        }
        i = i + 1;
    }
    proof {
        assert(a@ =~= b@);
    }
    true
}

/// Resolves a request's `sort_by` against the allow-list.
pub fn sort_column_of(sort_by: Option<&String>) -> (r: SortColumn)
    ensures
        r == spec_sort_column(match sort_by {
            Some(s) => Some(s@),
            None => None,
        }),
{
    match sort_by {
        Some(s) => {
            if str_equal(s.as_str(), "invoice_number") {
                SortColumn::InvoiceNumber
            } else if str_equal(s.as_str(), "invoice_date") {
                SortColumn::InvoiceDate
            } else if str_equal(s.as_str(), "total_amount") {
                SortColumn::TotalAmount
            } else if str_equal(s.as_str(), "customers") || str_equal(s.as_str(), "customer_name") {
                SortColumn::CustomerName
            } else {
                SortColumn::CreatedAt
            }
        },
        None => SortColumn::CreatedAt,
    }
}

/// Resolves a request's `order` parameter.
pub fn sort_direction_of(order: Option<&String>) -> (r: SortDirection)
    ensures
        r == spec_sort_direction(match order {
            Some(s) => Some(s@),
            None => None,
        }),
{
    match order {
        Some(s) => {
            if str_equal(s.as_str(), "asc") {
                SortDirection::Asc
            } else {
                SortDirection::Desc
            }
        },
        None => SortDirection::Desc,
    }
}

/// The ORDER BY column text of an allow-listed column.
pub fn sql_sort_column(c: SortColumn) -> (r: &'static str)
    ensures
        r@ == spec_sql_sort_column(c),
{
    match c {
        SortColumn::InvoiceNumber => "i.invoice_number",
        SortColumn::InvoiceDate => "i.invoice_date",
        SortColumn::TotalAmount => "i.total_amount",
        SortColumn::CustomerName => "c.name",
        SortColumn::CreatedAt => "i.created_at",
    }
}

/// The direction keyword.
pub fn sql_sort_direction(d: SortDirection) -> (r: &'static str)
    ensures
        r@ == spec_sql_sort_direction(d),
{
    match d {
        SortDirection::Asc => "ASC",
        SortDirection::Desc => "DESC",
    }
}

/// The ORDER BY text of a resolved column and direction: column, one
/// space, keyword — and never anything a caller wrote.
pub fn order_clause(c: SortColumn, d: SortDirection) -> (r: String)
    ensures
        r@ == spec_sql_sort_column(c) + " "@ + spec_sql_sort_direction(d),
{
    let mut out = String::from_str(sql_sort_column(c));
    out.append(" ");
    out.append(sql_sort_direction(d));
    out
}

/// The contains-pattern of a search string: `%`, the text, `%`. It is
/// bound as a statement parameter by the caller; the statement text
/// itself never carries it.
pub fn like_pattern(search: &str) -> (r: String)
    ensures
        r@ == "%"@ + search@ + "%"@,
{
    let mut out = String::from_str("%");
    out.append(search);
    out.append("%");
    out
}

} // verus!
