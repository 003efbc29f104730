//! Products, and the folding of flat join rows into nested responses.
//!
//! The product list query returns one row per product-and-warehouse
//! pair, with the category columns repeated on every row of a product.
//! The mapper groups those rows by product identity, preserving the
//! order in which a product is first seen, nests all of its warehouse
//! rows in row order, and takes the product and category columns from
//! the first row of each group.

use vstd::prelude::*;
use crate::money::Amount;
use crate::numbering::{all_digits, digits_value, is_digit_char, lemma_digits_value_monotone};
use crate::timestamp::Timestamp;

verus! {

/// Query parameters of the product list endpoint.
pub struct ProductQuery {
    pub page: Option<i64>,
    pub limit: Option<i64>,
    pub search: Option<String>,
    pub category_id: Option<i32>,
    pub ids: Option<String>,
}

/// An error payload of the product endpoints.
pub struct ErrorResponse {
    pub message: String,
    pub error: Option<String>,
}

/// A product row as a response carries it.
pub struct Product {
    pub id: i32,
    pub name: String,
    pub barcode: Option<String>,
    pub description: Option<String>,
    pub unit: Option<String>,
    pub purchase_price: Option<Amount>,
    pub sale_price: Option<Amount>,
    pub created_at: Option<Timestamp>,
    pub updated_at: Option<Timestamp>,
    pub code: Option<String>,
    pub article: Option<String>,
    pub category_id: Option<i32>,
    pub product_type: Option<String>,
    pub brand: Option<String>,
    pub model: Option<String>,
    pub color: Option<String>,
    pub size: Option<String>,
    pub weight: Option<Amount>,
    pub country: Option<String>,
    pub manufacturer: Option<String>,
    pub warranty_period: Option<i32>,
    pub min_stock: Option<Amount>,
    pub max_stock: Option<Amount>,
    pub tax_rate: Option<Amount>,
    pub is_active: Option<bool>,
    pub production_date: Option<Timestamp>,
    pub expiry_date: Option<Timestamp>,
}

/// A warehouse stock row.
pub struct Warehouse {
    pub id: i32,
    pub product_id: Option<i32>,
    pub quantity: Option<Amount>,
    pub updated_at: Option<Timestamp>,
}

/// A category row.
pub struct Category {
    pub id: i32,
    pub name: String,
    pub parent_id: Option<i32>,
    pub created_at: Option<Timestamp>,
    pub updated_at: Option<Timestamp>,
}

/// A product with its nested warehouse rows and category.
pub struct ProductWithRelations {
    pub product: Product,
    pub warehouse: Option<Vec<Warehouse>>,
    pub category: Option<Category>,
}

/// One flat row of the product list join: the product columns, then
/// the warehouse columns and the category columns, either of which the
/// left joins may leave empty.
pub struct ProductRow {
    pub id: i32,
    pub name: String,
    pub barcode: Option<String>,
    pub description: Option<String>,
    pub unit: Option<String>,
    pub purchase_price: Option<Amount>,
    pub sale_price: Option<Amount>,
    pub created_at: Option<Timestamp>,
    pub updated_at: Option<Timestamp>,
    pub code: Option<String>,
    pub article: Option<String>,
    pub category_id: Option<i32>,
    pub product_type: Option<String>,
    pub brand: Option<String>,
    pub model: Option<String>,
    pub color: Option<String>,
    pub size: Option<String>,
    pub weight: Option<Amount>,
    pub country: Option<String>,
    pub manufacturer: Option<String>,
    pub warranty_period: Option<i32>,
    pub min_stock: Option<Amount>,
    pub max_stock: Option<Amount>,
    pub tax_rate: Option<Amount>,
    pub is_active: Option<bool>,
    pub production_date: Option<Timestamp>,
    pub expiry_date: Option<Timestamp>,
    pub warehouse_id: Option<i32>,
    pub warehouse_product_id: Option<i32>,
    pub warehouse_quantity: Option<Amount>,
    pub warehouse_updated_at: Option<Timestamp>,
    pub category_id_join: Option<i32>,
    pub category_name: Option<String>,
    pub category_parent_id: Option<i32>,
    pub category_created_at: Option<Timestamp>,
    pub category_updated_at: Option<Timestamp>,
}

/// The product columns of a row.
pub open spec fn spec_product_of_row(r: ProductRow) -> Product {
    Product {
        id: r.id,
        name: r.name,
        barcode: r.barcode,
        description: r.description,
        unit: r.unit,
        purchase_price: r.purchase_price,
        sale_price: r.sale_price,
        created_at: r.created_at,
        updated_at: r.updated_at,
        code: r.code,
        article: r.article,
        category_id: r.category_id,
        product_type: r.product_type,
        brand: r.brand,
        model: r.model,
        color: r.color,
        size: r.size,
        weight: r.weight,
        country: r.country,
        manufacturer: r.manufacturer,
        warranty_period: r.warranty_period,
        min_stock: r.min_stock,
        max_stock: r.max_stock,
        tax_rate: r.tax_rate,
        is_active: r.is_active,
        production_date: r.production_date,
        expiry_date: r.expiry_date,
    }
}

/// Whether `c` is the category the row's join columns describe:
/// present exactly when the join found one, fields copied, and an
/// absent joined name falling back to the empty string, as the wire
/// format does.
pub open spec fn spec_category_matches(r: ProductRow, c: Option<Category>) -> bool {
    match r.category_id_join {
        Some(cat_id) => c is Some && {
            let cat = c->Some_0;
            &&& cat.id == cat_id
            &&& match r.category_name {
                Some(n) => cat.name == n,
                None => cat.name@ == Seq::<char>::empty(),
            }
            &&& cat.parent_id == r.category_parent_id
            &&& cat.created_at == r.category_created_at
            &&& cat.updated_at == r.category_updated_at
        },
        None => c is None,
    }
}

/// The warehouse columns of a row, meaningful when the join found one.
pub open spec fn spec_warehouse_of_row(r: ProductRow) -> Warehouse {
    Warehouse {
        id: r.warehouse_id->Some_0,
        product_id: r.warehouse_product_id,
        quantity: r.warehouse_quantity,
        updated_at: r.warehouse_updated_at,
    }
}

/// The distinct product identities of the rows, in first-seen order.
pub open spec fn spec_distinct_ids(rows: Seq<ProductRow>) -> Seq<i32>
    decreases rows.len(),
{
    if rows.len() == 0 {
        Seq::empty()
    } else {
        let rest = spec_distinct_ids(rows.drop_last());
        if rest.contains(rows.last().id) {
            rest
        } else {
            rest.push(rows.last().id)
        }
    }
}

/// The first row that carries product identity `id`.
pub open spec fn spec_first_row_for(rows: Seq<ProductRow>, id: i32) -> ProductRow
    decreases rows.len(),
{
    if rows.len() == 0 {
        arbitrary()
    } else if rows[0].id == id {
        rows[0]
    } else {
        spec_first_row_for(rows.drop_first(), id)
    }
}

/// The warehouses of product `id`: one entry for every row of that
/// product whose warehouse join is present, in row order.
pub open spec fn spec_warehouses_for(rows: Seq<ProductRow>, id: i32) -> Seq<Warehouse>
    decreases rows.len(),
{
    if rows.len() == 0 {
        Seq::empty()
    } else {
        let rest = spec_warehouses_for(rows.drop_last(), id);
        if rows.last().id == id && rows.last().warehouse_id is Some {
            rest.push(spec_warehouse_of_row(rows.last()))
        } else {
            rest
        }
    }
}

/// The warehouses of every row, in row order, regardless of identity:
/// the single-product fetch nests these, its rows all being one
/// product's.
pub open spec fn spec_row_warehouses(rows: Seq<ProductRow>) -> Seq<Warehouse>
    decreases rows.len(),
{
    if rows.len() == 0 {
        Seq::empty()
    } else {
        let rest = spec_row_warehouses(rows.drop_last());
        if rows.last().warehouse_id is Some {
            rest.push(spec_warehouse_of_row(rows.last()))
        } else {
            rest
        }
    }
}

/// A signed 32-bit integer read from one comma-separated segment: an
/// optional sign, then digits, nothing else, within range.
pub open spec fn spec_parse_i32(s: Seq<char>) -> Option<i32> {
    let digits = if s.len() > 0 && (s[0] == '-' || s[0] == '+') {
        s.subrange(1, s.len() as int)
    } else {
        s
    };
    let neg = s.len() > 0 && s[0] == '-';
    if digits.len() > 0 && all_digits(digits) && (if neg {
        digits_value(digits) <= 0x8000_0000
    } else {
        digits_value(digits) <= 0x7fff_ffff
    }) {
        if neg {
            Some((-(digits_value(digits) as int)) as i32)
        } else {
            Some(digits_value(digits) as i32)
        }
    } else {
        None
    }
}

/// The comma-separated segments of `s` from position `i` on, the
/// current segment having begun at `start`.
pub open spec fn spec_segments_from(s: Seq<char>, i: int, start: int) -> Seq<Seq<char>>
    decreases s.len() - i,
{
    if i < 0 || start < 0 || start > i {
        Seq::empty()
    } else if i >= s.len() {
        seq![s.subrange(start, s.len() as int)]
    } else if s[i] == ',' {
        seq![s.subrange(start, i)] + spec_segments_from(s, i + 1, i + 1)
    } else {
        spec_segments_from(s, i + 1, start)
    }
}

/// The identities a list of segments denotes: each segment that reads
/// as a signed 32-bit integer contributes it, in order; the others
/// are skipped.
pub open spec fn spec_ids_of_segments(segs: Seq<Seq<char>>) -> Seq<i32>
    decreases segs.len(),
{
    if segs.len() == 0 {
        Seq::empty()
    } else {
        match spec_parse_i32(segs[0]) {
            Some(v) => seq![v] + spec_ids_of_segments(segs.drop_first()),
            None => spec_ids_of_segments(segs.drop_first()),
        }
    }
}

/// The identities the `ids` filter of a product query denotes.
pub open spec fn spec_id_list(s: Seq<char>) -> Seq<i32> {
    spec_ids_of_segments(spec_segments_from(s, 0, 0))
}

/// Reads one segment as a signed 32-bit integer. `None` exactly when
/// the segment is empty, holds anything but a sign and digits, or
/// lies outside the range.
fn parse_segment_i32(s: &str) -> (r: Option<i32>)
    ensures
        r == spec_parse_i32(s@),
{
    let len = s.unicode_len();
    if len == 0 {
        return None;
    }
    let c0 = s.get_char(0);
    let signed = c0 == '-' || c0 == '+';
    let neg = c0 == '-';
    let from: usize = if signed {
        1
    } else {
        0
    };
    let ghost digits = if signed {
        s@.subrange(1, s@.len() as int)
    } else {
        s@
    };
    let bound: u64 = if neg {
        0x8000_0000
    } else {
        0x7fff_ffff
    };
    if from == len {
        return None;
    }
    let mut acc: u64 = 0;
    let mut i: usize = from;
    proof {
        assert(digits.take(0) =~= Seq::<char>::empty());
    }
    while i < len
        invariant
            from <= i <= len,
            from == if signed { 1int } else { 0int },
            len == s@.len(),
            from < len,
            signed == (s@[0] == '-' || s@[0] == '+'),
            neg == (s@[0] == '-'),
            digits == (if signed {
                s@.subrange(1, s@.len() as int)
            } else {
                s@
            }),
            bound == (if neg { 0x8000_0000u64 } else { 0x7fff_ffffu64 }),
            all_digits(digits.take(i - from)),
            acc == digits_value(digits.take(i - from)),
            acc <= bound,
        decreases len - i,
    {
        let c = s.get_char(i);
        let d: u64 = match c {
            '0' => 0,
            '1' => 1,
            '2' => 2,
            '3' => 3,
            '4' => 4,
            '5' => 5,
            '6' => 6,
            '7' => 7,
            '8' => 8,
            '9' => 9,
            _ => {
                proof {
                    assert(digits[i - from] == s@[i as int]);
                    assert(!is_digit_char(digits[i - from]));
                    assert(!all_digits(digits));
                    assert(spec_parse_i32(s@) is None);
                }
                return None;
            },
        };
        proof {
            assert(digits.take(i - from + 1).drop_last() =~= digits.take(i - from));
            assert(digits.take(i - from + 1).last() == digits[i - from]);
            assert(digits[i - from] == s@[i as int]);
        }
        let next = acc * 10 + d;
        if next > bound {
            proof {
                assert(digits_value(digits.take(i - from + 1)) > bound);
                lemma_digits_value_monotone(digits, i - from + 1, digits.len() as int);
                assert(digits.take(digits.len() as int) =~= digits);
                assert(digits_value(digits) > bound);
                assert(spec_parse_i32(s@) is None);
            }
            return None;
        }
        acc = next;
        i = i + 1;
    }
    proof {
        assert(digits.take(len - from) =~= digits);
    }
    if neg {
        proof {
            assert(0 - (acc as int) >= i32::MIN as int);
        }
        Some((-(acc as i64)) as i32)
    } else {
        Some(acc as i32)
    }
}

/// The identities of a product query's `ids` filter: its
/// comma-separated segments that read as signed 32-bit integers, in
/// order, the rest skipped.
pub fn parse_id_list(s: &str) -> (r: Vec<i32>)
    ensures
        r@ == spec_id_list(s@),
{
    let len = s.unicode_len();
    let mut out: Vec<i32> = Vec::new();
    let mut start: usize = 0;
    let mut i: usize = 0;
    while i < len
        invariant
            0 <= start <= i <= len,
            len == s@.len(),
            spec_id_list(s@) == out@ + spec_ids_of_segments(
                spec_segments_from(s@, i as int, start as int),
            ),
        decreases len - i,
    {
        let c = s.get_char(i);
        if c == ',' {
            let seg = s.substring_char(start, i);
            proof {
                assert(seg@ == s@.subrange(start as int, i as int));
                let segs = spec_segments_from(s@, i as int, start as int);
                let rest = spec_segments_from(s@, i as int + 1, i as int + 1);
                assert(segs == seq![s@.subrange(start as int, i as int)] + rest);
                assert(segs[0] == s@.subrange(start as int, i as int));
                assert(segs.drop_first() =~= rest);
            }
            let parsed = parse_segment_i32(seg);
            proof {
                let segs = spec_segments_from(s@, i as int, start as int);
                let rest = spec_segments_from(s@, i as int + 1, i as int + 1);
                match parsed {
                    Some(v) => {
                        assert(spec_ids_of_segments(segs) == seq![v] + spec_ids_of_segments(
                            rest,
                        ));
                    },
                    None => {
                        assert(spec_ids_of_segments(segs) == spec_ids_of_segments(rest));
                    },
                }
            }
            match parsed {
                Some(v) => {
                    out.push(v);
                    proof {
                        let rest = spec_segments_from(s@, i as int + 1, i as int + 1);
                        assert(out@ + spec_ids_of_segments(rest) =~= out@.drop_last() + (seq![v]
                            + spec_ids_of_segments(rest)));
                    }
                },
                None => {},
            }
            start = i + 1;
        }
        i = i + 1;
    }
    let seg = s.substring_char(start, len);
    proof {
        assert(seg@ == s@.subrange(start as int, len as int));
        let segs = spec_segments_from(s@, len as int, start as int);
        assert(segs == seq![s@.subrange(start as int, len as int)]);
        assert(segs[0] == seg@);
        assert(segs.drop_first() =~= Seq::<Seq<char>>::empty());
    }
    let parsed = parse_segment_i32(seg);
    proof {
        let segs = spec_segments_from(s@, len as int, start as int);
        assert(spec_ids_of_segments(Seq::<Seq<char>>::empty()) == Seq::<i32>::empty());
        match parsed {
            Some(v) => {
                assert(spec_ids_of_segments(segs) == seq![v] + spec_ids_of_segments(
                    segs.drop_first(),
                ));
            },
            None => {
                assert(spec_ids_of_segments(segs) == spec_ids_of_segments(segs.drop_first()));
            },
        }
    }
    match parsed {
        Some(v) => {
            out.push(v);
            proof {
                assert(out@ =~= out@.drop_last() + (seq![v] + Seq::<i32>::empty()));
            }
        },
        None => {
            proof {
                assert(out@ + Seq::<i32>::empty() =~= out@);
            }
        },
    }
    out
}

/// Clones an optional string by value.
fn clone_opt_str(o: &Option<String>) -> (r: Option<String>)
    ensures
        r == *o,
{
    match o {
        Some(s) => Some(s.clone()),
        None => None,
    }
}

/// Clones one join row by value.
fn clone_row(r: &ProductRow) -> (c: ProductRow)
    ensures
        c == *r,
{
    ProductRow {
        id: r.id,
        name: r.name.clone(),
        barcode: clone_opt_str(&r.barcode),
        description: clone_opt_str(&r.description),
        unit: clone_opt_str(&r.unit),
        purchase_price: r.purchase_price,
        sale_price: r.sale_price,
        created_at: r.created_at,
        updated_at: r.updated_at,
        code: clone_opt_str(&r.code),
        article: clone_opt_str(&r.article),
        category_id: r.category_id,
        product_type: clone_opt_str(&r.product_type),
        brand: clone_opt_str(&r.brand),
        model: clone_opt_str(&r.model),
        color: clone_opt_str(&r.color),
        size: clone_opt_str(&r.size),
        weight: r.weight,
        country: clone_opt_str(&r.country),
        manufacturer: clone_opt_str(&r.manufacturer),
        warranty_period: r.warranty_period,
        min_stock: r.min_stock,
        max_stock: r.max_stock,
        tax_rate: r.tax_rate,
        is_active: r.is_active,
        production_date: r.production_date,
        expiry_date: r.expiry_date,
        warehouse_id: r.warehouse_id,
        warehouse_product_id: r.warehouse_product_id,
        warehouse_quantity: r.warehouse_quantity,
        warehouse_updated_at: r.warehouse_updated_at,
        category_id_join: r.category_id_join,
        category_name: clone_opt_str(&r.category_name),
        category_parent_id: r.category_parent_id,
        category_created_at: r.category_created_at,
        category_updated_at: r.category_updated_at,
    }
}

/// The product columns of a row, by value.
fn product_of_row(r: &ProductRow) -> (p: Product)
    ensures
        p == spec_product_of_row(*r),
{
    Product {
        id: r.id,
        name: r.name.clone(),
        barcode: clone_opt_str(&r.barcode),
        description: clone_opt_str(&r.description),
        unit: clone_opt_str(&r.unit),
        purchase_price: r.purchase_price,
        sale_price: r.sale_price,
        created_at: r.created_at,
        updated_at: r.updated_at,
        code: clone_opt_str(&r.code),
        article: clone_opt_str(&r.article),
        category_id: r.category_id,
        product_type: clone_opt_str(&r.product_type),
        brand: clone_opt_str(&r.brand),
        model: clone_opt_str(&r.model),
        color: clone_opt_str(&r.color),
        size: clone_opt_str(&r.size),
        weight: r.weight,
        country: clone_opt_str(&r.country),
        manufacturer: clone_opt_str(&r.manufacturer),
        warranty_period: r.warranty_period,
        min_stock: r.min_stock,
        max_stock: r.max_stock,
        tax_rate: r.tax_rate,
        is_active: r.is_active,
        production_date: r.production_date,
        expiry_date: r.expiry_date,
    }
}

/// The category of a row's join columns, by value.
fn category_of_row(r: &ProductRow) -> (c: Option<Category>)
    ensures
        spec_category_matches(*r, c),
{
    match r.category_id_join {
        Some(cat_id) => {
            let name = match &r.category_name {
                Some(n) => n.clone(),
                None => String::new(),
            };
            Some(
                Category {
                    id: cat_id,
                    name,
                    parent_id: r.category_parent_id,
                    created_at: r.category_created_at,
                    updated_at: r.category_updated_at,
                },
            )
        },
        None => None,
    }
}

/// Whether one of the collected first rows carries identity `id`.
fn contains_id(firsts: &Vec<ProductRow>, id: i32) -> (r: bool)
    ensures
        r <==> exists|k: int| 0 <= k < firsts@.len() && (#[trigger] firsts@[k]).id == id,
{
    let mut k: usize = 0;
    while k < firsts.len()
        invariant
            0 <= k <= firsts@.len(),
            forall|j: int| 0 <= j < k ==> (#[trigger] firsts@[j]).id != id,
        decreases firsts@.len() - k,
    {
        if firsts[k].id == id {
            return true;
        }
        k = k + 1;
    }
    false
}

/// The distinct identities of a row prefix are exactly the identities
/// its rows carry.
proof fn lemma_distinct_ids_contains(s: Seq<ProductRow>, id: i32)
    ensures
        spec_distinct_ids(s).contains(id) <==> exists|j: int|
            0 <= j < s.len() && (#[trigger] s[j]).id == id,
    decreases s.len(),
{
    if s.len() > 0 {
        lemma_distinct_ids_contains(s.drop_last(), id);
        let rest = spec_distinct_ids(s.drop_last());
        if rest.contains(s.last().id) {
            if s.last().id == id {
                assert(s[s.len() - 1].id == id);
            }
            if spec_distinct_ids(s).contains(id) {
                let j = choose|j: int|
                    0 <= j < s.drop_last().len() && (#[trigger] s.drop_last()[j]).id == id;
                assert(s[j].id == id);
            } else {
                if exists|j: int| 0 <= j < s.len() && (#[trigger] s[j]).id == id {
                    let j = choose|j: int| 0 <= j < s.len() && (#[trigger] s[j]).id == id;
                    if j < s.len() - 1 {
                        assert(s.drop_last()[j].id == id);
                    }
                    assert(false);
                }
            }
        } else {
            let whole = rest.push(s.last().id);
            assert(whole.last() == s.last().id);
            if spec_distinct_ids(s).contains(id) {
                let w = choose|w: int| 0 <= w < whole.len() && whole[w] == id;
                if w < rest.len() {
                    assert(rest[w] == id);
                    assert(rest.contains(id));
                    let j = choose|j: int|
                        0 <= j < s.drop_last().len() && (#[trigger] s.drop_last()[j]).id == id;
                    assert(s[j].id == id);
                } else {
                    assert(s[s.len() - 1].id == id);
                }
            }
            if exists|j: int| 0 <= j < s.len() && (#[trigger] s[j]).id == id {
                let j = choose|j: int| 0 <= j < s.len() && (#[trigger] s[j]).id == id;
                if j < s.len() - 1 {
                    assert(s.drop_last()[j].id == id);
                    assert(rest.contains(id));
                    let w = choose|w: int| 0 <= w < rest.len() && rest[w] == id;
                    assert(whole[w] == id);
                } else {
                    assert(whole[whole.len() - 1] == id);
                }
            }
        }
    }
}

/// Extending the rows does not change the first row of an identity
/// they already carry; a fresh identity's first row is the new row.
proof fn lemma_first_row_stable(s: Seq<ProductRow>, x: ProductRow, id: i32)
    ensures
        (exists|j: int| 0 <= j < s.len() && (#[trigger] s[j]).id == id)
            ==> spec_first_row_for(s.push(x), id) == spec_first_row_for(s, id),
        (!exists|j: int| 0 <= j < s.len() && (#[trigger] s[j]).id == id) && x.id == id
            ==> spec_first_row_for(s.push(x), id) == x,
    decreases s.len(),
{
    if s.len() == 0 {
        assert(s.push(x)[0] == x);
        assert(s.push(x).drop_first() =~= Seq::<ProductRow>::empty());
    } else {
        assert(s.push(x)[0] == s[0]);
        if s[0].id == id {
            assert(s[0].id == id);
        } else {
            assert(s.push(x).drop_first() =~= s.drop_first().push(x));
            lemma_first_row_stable(s.drop_first(), x, id);
            if exists|j: int| 0 <= j < s.len() && (#[trigger] s[j]).id == id {
                let j = choose|j: int| 0 <= j < s.len() && (#[trigger] s[j]).id == id;
                assert(s.drop_first()[j - 1].id == id);
            }
            if exists|j: int| 0 <= j < s.drop_first().len() && (#[trigger] s.drop_first()[j]).id
                == id {
                let j = choose|j: int|
                    0 <= j < s.drop_first().len() && (#[trigger] s.drop_first()[j]).id == id;
                assert(s[j + 1].id == id);
            }
        }
    }
}

/// The first row of every distinct identity, in first-seen order.
fn first_rows(rows: &Vec<ProductRow>) -> (r: Vec<ProductRow>)
    ensures
        r@.len() == spec_distinct_ids(rows@).len(),
        forall|k: int|
            0 <= k < r@.len() ==> (#[trigger] r@[k]).id == spec_distinct_ids(rows@)[k] && r@[k]
                == spec_first_row_for(rows@, spec_distinct_ids(rows@)[k]),
        forall|i: int, j: int|
            #![trigger r@[i], r@[j]]
            0 <= i < j < r@.len() ==> r@[i].id != r@[j].id,
{
    let mut r: Vec<ProductRow> = Vec::new();
    let mut i: usize = 0;
    proof {
        assert(rows@.take(0) =~= Seq::<ProductRow>::empty());
    }
    while i < rows.len()
        invariant
            0 <= i <= rows@.len(),
            r@.len() == spec_distinct_ids(rows@.take(i as int)).len(),
            forall|k: int|
                0 <= k < r@.len() ==> (#[trigger] r@[k]).id == spec_distinct_ids(
                    rows@.take(i as int),
                )[k] && r@[k] == spec_first_row_for(rows@.take(i as int), r@[k].id),
            forall|a: int, b: int|
                #![trigger r@[a], r@[b]]
                0 <= a < b < r@.len() ==> r@[a].id != r@[b].id,
        decreases rows@.len() - i,
    {
        let prefix = Ghost(rows@.take(i as int));
        let next = Ghost(rows@.take(i + 1));
        proof {
            assert(next@ =~= prefix@.push(rows@[i as int]));
            assert(next@.drop_last() =~= prefix@);
            lemma_distinct_ids_contains(prefix@, rows@[i as int].id);
        }
        let seen = contains_id(&r, rows[i].id);
        proof {
            let ids = spec_distinct_ids(prefix@);
            // the collected identities are exactly the prefix's
            if seen {
                let k = choose|k: int| 0 <= k < r@.len() && (#[trigger] r@[k]).id
                    == rows@[i as int].id;
                assert(ids[k] == rows@[i as int].id);
                assert(ids.contains(rows@[i as int].id));
            } else {
                if ids.contains(rows@[i as int].id) {
                    let w = choose|w: int| 0 <= w < ids.len() && ids[w] == rows@[i as int].id;
                    assert(r@[w].id == rows@[i as int].id);
                    assert(false);
                }
            }
            assert forall|k: int| 0 <= k < r@.len() implies r@[k]
                == spec_first_row_for(next@, r@[k].id) by {
                assert(r@[k] == spec_first_row_for(prefix@, r@[k].id));
                assert(ids.contains(r@[k].id));
                lemma_distinct_ids_contains(prefix@, r@[k].id);
                lemma_first_row_stable(prefix@, rows@[i as int], r@[k].id);
            }
        }
        if !seen {
            let row = clone_row(&rows[i]);
            r.push(row);
            proof {
                lemma_first_row_stable(prefix@, rows@[i as int], rows@[i as int].id);
            }
        }
        i = i + 1;
    }
    proof {
        assert(rows@.take(rows@.len() as int) =~= rows@);
    }
    r
}

/// The nested warehouse rows of product `id`, in row order.
fn warehouses_for(rows: &Vec<ProductRow>, id: i32) -> (r: Vec<Warehouse>)
    ensures
        r@ == spec_warehouses_for(rows@, id),
{
    let mut r: Vec<Warehouse> = Vec::new();
    let mut j: usize = 0;
    proof {
        assert(rows@.take(0) =~= Seq::<ProductRow>::empty());
    }
    while j < rows.len()
        invariant
            0 <= j <= rows@.len(),
            r@ == spec_warehouses_for(rows@.take(j as int), id),
        decreases rows@.len() - j,
    {
        proof {
            assert(rows@.take(j + 1).drop_last() =~= rows@.take(j as int));
            assert(rows@.take(j + 1).last() == rows@[j as int]);
        }
        if rows[j].id == id {
            if let Some(wid) = rows[j].warehouse_id {
                r.push(
                    Warehouse {
                        id: wid,
                        product_id: rows[j].warehouse_product_id,
                        quantity: rows[j].warehouse_quantity,
                        updated_at: rows[j].warehouse_updated_at,
                    },
                );
            }
        }
        j = j + 1;
    }
    proof {
        assert(rows@.take(rows@.len() as int) =~= rows@);
    }
    r
}

/// Groups the flat join rows of the product list into one response
/// object per distinct product, preserving first-seen order: the
/// product and category columns come from the first row of each group,
/// and every warehouse row of the group is nested in row order. The
/// same rows always produce the same objects.
pub fn group_products(rows: &Vec<ProductRow>) -> (r: Vec<ProductWithRelations>)
    ensures
        r@.len() == spec_distinct_ids(rows@).len(),
        forall|k: int|
            0 <= k < r@.len() ==> {
                let id = spec_distinct_ids(rows@)[k];
                let first = spec_first_row_for(rows@, id);
                &&& (#[trigger] r@[k]).product == spec_product_of_row(first)
                &&& r@[k].product.id == id
                &&& spec_category_matches(first, r@[k].category)
                &&& r@[k].warehouse is Some
                &&& r@[k].warehouse->Some_0@ == spec_warehouses_for(rows@, id)
            },
        forall|i: int, j: int|
            #![trigger r@[i], r@[j]]
            0 <= i < j < r@.len() ==> r@[i].product.id != r@[j].product.id,
{
    let firsts = first_rows(rows);
    let mut r: Vec<ProductWithRelations> = Vec::new();
    let mut k: usize = 0;
    while k < firsts.len()
        invariant
            0 <= k <= firsts@.len(),
            r@.len() == k,
            firsts@.len() == spec_distinct_ids(rows@).len(),
            forall|t: int|
                0 <= t < firsts@.len() ==> (#[trigger] firsts@[t]).id == spec_distinct_ids(
                    rows@,
                )[t] && firsts@[t] == spec_first_row_for(rows@, spec_distinct_ids(rows@)[t]),
            forall|t: int|
                0 <= t < k ==> {
                    let id = spec_distinct_ids(rows@)[t];
                    let first = spec_first_row_for(rows@, id);
                    &&& (#[trigger] r@[t]).product == spec_product_of_row(first)
                    &&& r@[t].product.id == id
                    &&& spec_category_matches(first, r@[t].category)
                    &&& r@[t].warehouse is Some
                    &&& r@[t].warehouse->Some_0@ == spec_warehouses_for(rows@, id)
                },
        decreases firsts@.len() - k,
    {
        let product = product_of_row(&firsts[k]);
        let category = category_of_row(&firsts[k]);
        let wh = warehouses_for(rows, firsts[k].id);
        r.push(ProductWithRelations { product, warehouse: Some(wh), category });
        k = k + 1;
    }
    proof {
        assert forall|i: int, j: int|
            #![trigger r@[i], r@[j]]
            0 <= i < j < r@.len() implies r@[i].product.id != r@[j].product.id by {
            assert(firsts@[i].id != firsts@[j].id);
        }
    }
    r
}

/// Builds the single-product response from the rows of one product:
/// product and category from the first row, every present warehouse
/// nested in row order. `None` exactly when there is no row.
pub fn single_product(rows: &Vec<ProductRow>) -> (r: Option<ProductWithRelations>)
    ensures
        r is Some <==> rows@.len() > 0,
        r is Some ==> r->Some_0.product == spec_product_of_row(rows@[0])
            && spec_category_matches(rows@[0], r->Some_0.category) && r->Some_0.warehouse is Some
            && r->Some_0.warehouse->Some_0@ == spec_row_warehouses(rows@),
{
    if rows.len() == 0 {
        return None;
    }
    let product = product_of_row(&rows[0]);
    let category = category_of_row(&rows[0]);
    let mut wh: Vec<Warehouse> = Vec::new();
    let mut j: usize = 0;
    proof {
        assert(rows@.take(0) =~= Seq::<ProductRow>::empty());
    }
    while j < rows.len()
        invariant
            0 <= j <= rows@.len(),
            wh@ == spec_row_warehouses(rows@.take(j as int)),
        decreases rows@.len() - j,
    {
        proof {
            assert(rows@.take(j + 1).drop_last() =~= rows@.take(j as int));
            assert(rows@.take(j + 1).last() == rows@[j as int]);
        }
        if let Some(wid) = rows[j].warehouse_id {
            wh.push(
                Warehouse {
                    id: wid,
                    product_id: rows[j].warehouse_product_id,
                    quantity: rows[j].warehouse_quantity,
                    updated_at: rows[j].warehouse_updated_at,
                },
            );
        }
        j = j + 1;
    }
    proof {
        assert(rows@.take(rows@.len() as int) =~= rows@);
    }
    Some(ProductWithRelations { product, warehouse: Some(wh), category })
}

} // verus!
