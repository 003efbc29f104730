//! The order/invoice transaction core.
//!
//! A [`SaleLedger`] is the state the order endpoints act on: the
//! invoice header table and the line-item table, with their identity
//! counters. Every operation is all-or-nothing — when it reports an
//! error the state is exactly what it was — and the well-formedness
//! invariant ties the two tables together: identities grow, invoice
//! numbers grow with them, and no item row ever points at a missing
//! header.

use vstd::prelude::*;
use crate::money::{Amount, checked_sum, spec_sum, spec_value_sum};
use crate::numbering::{
    format_invoice_number, lemma_generated_number_wf, lemma_wf_number_facts, number_value,
    sequence_value, spec_invoice_number, spec_next_sequence, wf_number,
};
use crate::timestamp::Timestamp;

verus! {

/// Query parameters of the order list endpoint.
pub struct OrderQuery {
    pub page: Option<i64>,
    pub limit: Option<i64>,
    pub search: Option<String>,
    pub sort_by: Option<String>,
    pub order: Option<String>,
}

/// Body of the single-field status update.
pub struct UpdateStatusRequest {
    pub is_active: bool,
}

/// One line item of a create or replace request. `vat_rate` is
/// accepted on the wire but not persisted.
#[derive(Clone, Copy)]
pub struct CreateOrderItem {
    pub product_id: i32,
    pub quantity: Amount,
    pub unit_price: Amount,
    pub total_price: Amount,
    pub discount_auto: Option<Amount>,
    pub discount_manual: Option<Amount>,
    pub vat_rate: Option<Amount>,
}

/// Body of an invoice creation.
pub struct CreateOrderRequest {
    pub customer_id: Option<i32>,
    pub invoice_date: Option<Timestamp>,
    pub payment_date: Option<Timestamp>,
    pub notes: Option<String>,
    pub items: Vec<CreateOrderItem>,
}

/// Body of a partial invoice update: a header field is touched only
/// when it is provided, and a provided item list — even an empty one —
/// replaces the item set as a whole.
pub struct UpdateOrderRequest {
    pub customer_id: Option<i32>,
    pub invoice_date: Option<Timestamp>,
    pub payment_date: Option<Timestamp>,
    pub notes: Option<String>,
    pub items: Option<Vec<CreateOrderItem>>,
}

/// Why a ledger operation refused to run. Each one leaves the ledger
/// exactly as it was.
#[derive(Clone, Copy, Debug, PartialEq, Eq, Structural)]
pub enum LedgerError {
    /// The stored number space cannot grow any further.
    NumberExhausted,
    /// The item totals cannot be summed exactly.
    TotalOverflow,
    /// An identity counter would leave its range.
    IdExhausted,
    /// No invoice carries the given identity.
    NotFound,
}

/// A stored invoice header row.
pub struct InvoiceRow {
    pub id: i32,
    pub invoice_number: String,
    pub customer_id: Option<i32>,
    pub total_amount: Amount,
    pub invoice_date: Option<Timestamp>,
    pub payment_date: Option<Timestamp>,
    pub notes: Option<String>,
    pub created_at: Option<Timestamp>,
    pub is_active: bool,
}

/// A stored line-item row, owned by the invoice it names.
#[derive(Clone, Copy, Debug, PartialEq, Eq, Structural)]
pub struct ItemRow {
    pub id: i32,
    pub invoice_id: i32,
    pub product_id: i32,
    pub quantity: Amount,
    pub unit_price: Amount,
    pub total_price: Amount,
    pub discount_auto: Option<Amount>,
    pub discount_manual: Option<Amount>,
}

/// The invoice tables: headers, items, and the identity counters.
pub struct SaleLedger {
    pub invoices: Vec<InvoiceRow>,
    pub items: Vec<ItemRow>,
    pub next_invoice_id: i32,
    pub next_item_id: i32,
}

/// Whether every amount a request item carries is representable.
pub open spec fn spec_item_wf(it: CreateOrderItem) -> bool {
    &&& it.quantity.wf()
    &&& it.unit_price.wf()
    &&& it.total_price.wf()
    &&& it.discount_auto is Some ==> it.discount_auto->Some_0.wf()
    &&& it.discount_manual is Some ==> it.discount_manual->Some_0.wf()
    &&& it.vat_rate is Some ==> it.vat_rate->Some_0.wf()
}

/// Whether every item of a request is representable.
pub open spec fn spec_items_wf(items: Seq<CreateOrderItem>) -> bool {
    forall|i: int| 0 <= i < items.len() ==> spec_item_wf(#[trigger] items[i])
}

/// The total prices of a request's items, in order.
pub open spec fn spec_prices(items: Seq<CreateOrderItem>) -> Seq<Amount> {
    items.map_values(|it: CreateOrderItem| it.total_price)
}

/// The item rows a request's items become: fresh consecutive
/// identities from `first`, bound to `invoice_id`, in request order.
pub open spec fn spec_item_rows(items: Seq<CreateOrderItem>, invoice_id: i32, first: int) -> Seq<
    ItemRow,
> {
    Seq::new(
        items.len(),
        |k: int| ItemRow {
            id: (first + k) as i32,
            invoice_id,
            product_id: items[k].product_id,
            quantity: items[k].quantity,
            unit_price: items[k].unit_price,
            total_price: items[k].total_price,
            discount_auto: items[k].discount_auto,
            discount_manual: items[k].discount_manual,
        },
    )
}

impl SaleLedger {
    /// Whether some stored invoice carries identity `id`.
    pub open spec fn spec_has_invoice(self, id: i32) -> bool {
        exists|j: int| 0 <= j < self.invoices@.len() && (#[trigger] self.invoices@[j]).id == id
    }

    /// The number of the most recently created invoice, if any.
    pub open spec fn spec_last_number(self) -> Option<Seq<char>> {
        if self.invoices@.len() == 0 {
            None
        } else {
            Some(self.invoices@.last().invoice_number@)
        }
    }

    /// The sequence number the next creation will use.
    pub open spec fn spec_next_seq(self) -> nat {
        spec_next_sequence(self.spec_last_number())
    }

    /// Whether the number space is exhausted: the last stored number
    /// already denotes the largest sequence value there is.
    pub open spec fn spec_number_blocked(self) -> bool {
        self.invoices@.len() > 0 && number_value(self.invoices@.last().invoice_number@)
            >= u64::MAX
    }

    /// Invoice identities are at least one, below the counter, and
    /// strictly increasing in creation order.
    pub open spec fn wf_invoice_ids(self) -> bool {
        &&& forall|i: int|
            0 <= i < self.invoices@.len() ==> 1 <= (#[trigger] self.invoices@[i]).id
                < self.next_invoice_id
        &&& forall|i: int, j: int|
            #![trigger self.invoices@[i], self.invoices@[j]]
            0 <= i < j < self.invoices@.len() ==> self.invoices@[i].id < self.invoices@[j].id
    }

    /// Item identities are at least one, below the counter, and
    /// strictly increasing in insertion order.
    pub open spec fn wf_item_ids(self) -> bool {
        &&& forall|i: int|
            0 <= i < self.items@.len() ==> 1 <= (#[trigger] self.items@[i]).id < self.next_item_id
        &&& forall|i: int, j: int|
            #![trigger self.items@[i], self.items@[j]]
            0 <= i < j < self.items@.len() ==> self.items@[i].id < self.items@[j].id
    }

    /// Stored invoice numbers are this library's own renderings and
    /// strictly increase in creation order.
    pub open spec fn wf_numbers(self) -> bool {
        &&& forall|i: int|
            0 <= i < self.invoices@.len() ==> wf_number(
                (#[trigger] self.invoices@[i]).invoice_number@,
            )
        &&& forall|i: int, j: int|
            #![trigger self.invoices@[i], self.invoices@[j]]
            0 <= i < j < self.invoices@.len() ==> number_value(self.invoices@[i].invoice_number@)
                < number_value(self.invoices@[j].invoice_number@)
    }

    /// Every item row points at a stored invoice: no orphans, ever.
    pub open spec fn wf_links(self) -> bool {
        forall|i: int|
            0 <= i < self.items@.len() ==> self.spec_has_invoice(
                (#[trigger] self.items@[i]).invoice_id,
            )
    }

    /// Every stored amount is representable.
    pub open spec fn wf_amounts(self) -> bool {
        &&& forall|i: int|
            0 <= i < self.invoices@.len() ==> (#[trigger] self.invoices@[i]).total_amount.wf()
        &&& forall|i: int|
            0 <= i < self.items@.len() ==> {
                let it = #[trigger] self.items@[i];
                it.quantity.wf() && it.unit_price.wf() && it.total_price.wf() && (it.discount_auto
                    is Some ==> it.discount_auto->Some_0.wf()) && (it.discount_manual is Some
                    ==> it.discount_manual->Some_0.wf())
            }
    }

    /// The ledger invariant.
    pub open spec fn wf(self) -> bool {
        &&& 1 <= self.next_invoice_id
        &&& 1 <= self.next_item_id
        &&& self.wf_invoice_ids()
        &&& self.wf_item_ids()
        &&& self.wf_numbers()
        &&& self.wf_links()
        &&& self.wf_amounts()
    }

    /// An empty ledger.
    pub fn new() -> (r: SaleLedger)
        ensures
            r.wf(),
            r.invoices@.len() == 0,
            r.items@.len() == 0,
            r.next_invoice_id == 1,
            r.next_item_id == 1,
    {
        SaleLedger { invoices: Vec::new(), items: Vec::new(), next_invoice_id: 1, next_item_id: 1 }
    }
}

/// All stored invoice numbers are distinct: the strict growth the
/// invariant keeps rules every collision out, so concurrent creations
/// serialized through the ledger can never mint the same number twice.
pub proof fn lemma_invoice_numbers_unique(l: SaleLedger)
    requires
        l.wf(),
    ensures
        forall|i: int, j: int|
            #![trigger l.invoices@[i], l.invoices@[j]]
            0 <= i < j < l.invoices@.len() ==> l.invoices@[i].invoice_number@
                != l.invoices@[j].invoice_number@,
{
    assert forall|i: int, j: int|
        #![trigger l.invoices@[i], l.invoices@[j]]
        0 <= i < j < l.invoices@.len() implies l.invoices@[i].invoice_number@
        != l.invoices@[j].invoice_number@ by {
        assert(number_value(l.invoices@[i].invoice_number@) < number_value(
            l.invoices@[j].invoice_number@,
        ));
    }
}

/// Every element a filter keeps comes from the underlying sequence.
proof fn lemma_filter_membership<A>(s: Seq<A>, pred: spec_fn(A) -> bool)
    ensures
        forall|i: int| 0 <= i < s.filter(pred).len() ==> s.contains(#[trigger] s.filter(pred)[i]),
    decreases s.len(),
{
    reveal(Seq::filter);
    if s.len() > 0 {
        lemma_filter_membership(s.drop_last(), pred);
        let f = s.filter(pred);
        let fd = s.drop_last().filter(pred);
        assert forall|i: int| 0 <= i < f.len() implies s.contains(#[trigger] f[i]) by {
            if pred(s.last()) && i == f.len() - 1 {
                assert(f[i] == s.last());
                assert(s[s.len() - 1] == s.last());
            } else {
                assert(f[i] == fd[i]);
                assert(s.drop_last().contains(fd[i]));
                let j = choose|j: int|
                    0 <= j < s.drop_last().len() && s.drop_last()[j] == fd[i];
                assert(s[j] == f[i]);
            }
        }
    }
}

/// Filtering keeps a strictly ordered sequence strictly ordered.
proof fn lemma_filter_ordered<A>(s: Seq<A>, pred: spec_fn(A) -> bool, lt: spec_fn(A, A) -> bool)
    requires
        forall|i: int, j: int| 0 <= i < j < s.len() ==> lt(#[trigger] s[i], #[trigger] s[j]),
    ensures
        forall|i: int, j: int|
            0 <= i < j < s.filter(pred).len() ==> lt(
                #[trigger] s.filter(pred)[i],
                #[trigger] s.filter(pred)[j],
            ),
    decreases s.len(),
{
    reveal(Seq::filter);
    if s.len() > 0 {
        let d = s.drop_last();
        assert(forall|i: int, j: int| 0 <= i < j < d.len() ==> lt(#[trigger] d[i], #[trigger] d[j]));
        lemma_filter_ordered(d, pred, lt);
        lemma_filter_membership(d, pred);
        let f = s.filter(pred);
        let fd = d.filter(pred);
        assert forall|i: int, j: int| 0 <= i < j < f.len() implies lt(
            #[trigger] f[i],
            #[trigger] f[j],
        ) by {
            if pred(s.last()) && j == f.len() - 1 && f.len() == fd.len() + 1 {
                assert(f[i] == fd[i]);
                assert(d.contains(fd[i]));
                let w = choose|w: int| 0 <= w < d.len() && d[w] == fd[i];
                assert(lt(s[w], s[s.len() - 1]));
                assert(f[j] == s.last());
            } else {
                assert(f[i] == fd[i]);
                assert(f[j] == fd[j]);
            }
        }
    }
}

/// A filter whose test holds everywhere keeps the whole sequence.
proof fn lemma_filter_all<A>(s: Seq<A>, pred: spec_fn(A) -> bool)
    requires
        forall|i: int| 0 <= i < s.len() ==> pred(#[trigger] s[i]),
    ensures
        s.filter(pred) == s,
    decreases s.len(),
{
    reveal(Seq::filter);
    if s.len() > 0 {
        let d = s.drop_last();
        assert(forall|i: int| 0 <= i < d.len() ==> pred(#[trigger] d[i]));
        lemma_filter_all(d, pred);
        assert(s.filter(pred) =~= s);
    }
}

/// A filter whose test holds nowhere keeps nothing.
proof fn lemma_filter_none<A>(s: Seq<A>, pred: spec_fn(A) -> bool)
    requires
        forall|i: int| 0 <= i < s.len() ==> !pred(#[trigger] s[i]),
    ensures
        s.filter(pred) == Seq::<A>::empty(),
    decreases s.len(),
{
    reveal(Seq::filter);
    if s.len() > 0 {
        let d = s.drop_last();
        assert(forall|i: int| 0 <= i < d.len() ==> !pred(#[trigger] d[i]));
        lemma_filter_none(d, pred);
        assert(s.filter(pred) =~= Seq::<A>::empty());
    }
}

/// Clones an optional string by value.
fn clone_opt_string(o: &Option<String>) -> (r: Option<String>)
    ensures
        r == *o,
{
    match o {
        Some(s) => Some(s.clone()),
        None => None,
    }
}

/// The item rows of a request: fresh consecutive identities from
/// `first`, bound to `invoice_id`, in request order.
fn build_item_rows(items: &Vec<CreateOrderItem>, invoice_id: i32, first: i32) -> (r: Vec<ItemRow>)
    requires
        1 <= first,
        first + items@.len() <= i32::MAX,
    ensures
        r@ == spec_item_rows(items@, invoice_id, first as int),
{
    let mut r: Vec<ItemRow> = Vec::new();
    let mut k: usize = 0;
    while k < items.len()
        invariant
            0 <= k <= items@.len(),
            1 <= first,
            first + items@.len() <= i32::MAX,
            r@ =~= spec_item_rows(items@.take(k as int), invoice_id, first as int),
        decreases items@.len() - k,
    {
        let it = items[k];
        r.push(
            ItemRow {
                id: first + (k as i32),
                invoice_id,
                product_id: it.product_id,
                quantity: it.quantity,
                unit_price: it.unit_price,
                total_price: it.total_price,
                discount_auto: it.discount_auto,
                discount_manual: it.discount_manual,
            },
        );
        proof {
            assert(r@ =~= spec_item_rows(items@.take(k + 1), invoice_id, first as int));
        }
        k = k + 1;
    }
    proof {
        assert(items@.take(items@.len() as int) =~= items@);
    }
    r
}

/// The total prices of a request's items, as a list of amounts.
fn collect_prices(items: &Vec<CreateOrderItem>) -> (r: Vec<Amount>)
    ensures
        r@ == spec_prices(items@),
{
    let mut r: Vec<Amount> = Vec::new();
    let mut k: usize = 0;
    while k < items.len()
        invariant
            0 <= k <= items@.len(),
            r@ =~= spec_prices(items@.take(k as int)),
        decreases items@.len() - k,
    {
        r.push(items[k].total_price);
        proof {
            assert(r@ =~= spec_prices(items@.take(k + 1)));
        }
        k = k + 1;
    }
    proof {
        assert(items@.take(items@.len() as int) =~= items@);
    }
    r
}

/// Clones one stored header row by value.
fn clone_invoice_row(row: &InvoiceRow) -> (r: InvoiceRow)
    ensures
        r == *row,
{
    InvoiceRow {
        id: row.id,
        invoice_number: row.invoice_number.clone(),
        customer_id: row.customer_id,
        total_amount: row.total_amount,
        invoice_date: row.invoice_date,
        payment_date: row.payment_date,
        notes: clone_opt_string(&row.notes),
        created_at: row.created_at,
        is_active: row.is_active,
    }
}

/// The item rows that do not belong to invoice `id`, in stored order.
fn retain_items_not_of(items: &Vec<ItemRow>, id: i32) -> (r: Vec<ItemRow>)
    ensures
        r@ == items@.filter(|t: ItemRow| t.invoice_id != id),
{
    let mut r: Vec<ItemRow> = Vec::new();
    let mut k: usize = 0;
    proof {
        reveal(Seq::filter);
        assert(items@.take(0).filter(|t: ItemRow| t.invoice_id != id) =~= Seq::<ItemRow>::empty());
    }
    while k < items.len()
        invariant
            0 <= k <= items@.len(),
            r@ == items@.take(k as int).filter(|t: ItemRow| t.invoice_id != id),
        decreases items@.len() - k,
    {
        let it = items[k];
        proof {
            reveal(Seq::filter);
            assert(items@.take(k + 1).drop_last() =~= items@.take(k as int));
            assert(items@.take(k + 1).last() == items@[k as int]);
        }
        if it.invoice_id != id {
            r.push(it);
        }
        k = k + 1;
    }
    proof {
        assert(items@.take(items@.len() as int) =~= items@);
    }
    r
}

/// The item rows of invoice `id`, in stored order.
fn collect_items_of(items: &Vec<ItemRow>, id: i32) -> (r: Vec<ItemRow>)
    ensures
        r@ == items@.filter(|t: ItemRow| t.invoice_id == id),
{
    let mut r: Vec<ItemRow> = Vec::new();
    let mut k: usize = 0;
    proof {
        reveal(Seq::filter);
        assert(items@.take(0).filter(|t: ItemRow| t.invoice_id == id) =~= Seq::<ItemRow>::empty());
    }
    while k < items.len()
        invariant
            0 <= k <= items@.len(),
            r@ == items@.take(k as int).filter(|t: ItemRow| t.invoice_id == id),
        decreases items@.len() - k,
    {
        let it = items[k];
        proof {
            reveal(Seq::filter);
            assert(items@.take(k + 1).drop_last() =~= items@.take(k as int));
            assert(items@.take(k + 1).last() == items@[k as int]);
        }
        if it.invoice_id == id {
            r.push(it);
        }
        k = k + 1;
    }
    proof {
        assert(items@.take(items@.len() as int) =~= items@);
    }
    r
}

/// The header rows that do not carry identity `id`, in stored order.
fn retain_invoices_not(invoices: &Vec<InvoiceRow>, id: i32) -> (r: Vec<InvoiceRow>)
    ensures
        r@ == invoices@.filter(|w: InvoiceRow| w.id != id),
{
    let mut r: Vec<InvoiceRow> = Vec::new();
    let mut k: usize = 0;
    proof {
        reveal(Seq::filter);
        assert(invoices@.take(0).filter(|w: InvoiceRow| w.id != id) =~= Seq::<
            InvoiceRow,
        >::empty());
    }
    while k < invoices.len()
        invariant
            0 <= k <= invoices@.len(),
            r@ == invoices@.take(k as int).filter(|w: InvoiceRow| w.id != id),
        decreases invoices@.len() - k,
    {
        proof {
            reveal(Seq::filter);
            assert(invoices@.take(k + 1).drop_last() =~= invoices@.take(k as int));
            assert(invoices@.take(k + 1).last() == invoices@[k as int]);
        }
        if invoices[k].id != id {
            let row = clone_invoice_row(&invoices[k]);
            r.push(row);
        }
        k = k + 1;
    }
    proof {
        assert(invoices@.take(invoices@.len() as int) =~= invoices@);
    }
    r
}

/// The coalesced header an update produces: each provided field
/// replaces the stored one, everything else is kept, and the total is
/// replaced exactly when the item set is.
pub open spec fn spec_updated_header(
    row: InvoiceRow,
    req: UpdateOrderRequest,
    new_total: Option<Amount>,
) -> InvoiceRow {
    InvoiceRow {
        customer_id: if req.customer_id is Some {
            req.customer_id
        } else {
            row.customer_id
        },
        invoice_date: if req.invoice_date is Some {
            req.invoice_date
        } else {
            row.invoice_date
        },
        payment_date: if req.payment_date is Some {
            req.payment_date
        } else {
            row.payment_date
        },
        notes: if req.notes is Some {
            req.notes
        } else {
            row.notes
        },
        total_amount: match new_total {
            Some(t) => t,
            None => row.total_amount,
        },
        ..row
    }
}

/// The coalesced header an update produces, built from the stored row.
fn coalesced_row(row: &InvoiceRow, req: &UpdateOrderRequest, new_total: Option<Amount>) -> (r:
    InvoiceRow)
    ensures
        r == spec_updated_header(*row, *req, new_total),
{
    InvoiceRow {
        id: row.id,
        invoice_number: row.invoice_number.clone(),
        customer_id: if req.customer_id.is_some() {
            req.customer_id
        } else {
            row.customer_id
        },
        invoice_date: if req.invoice_date.is_some() {
            req.invoice_date
        } else {
            row.invoice_date
        },
        payment_date: if req.payment_date.is_some() {
            req.payment_date
        } else {
            row.payment_date
        },
        notes: if req.notes.is_some() {
            clone_opt_string(&req.notes)
        } else {
            clone_opt_string(&row.notes)
        },
        total_amount: match new_total {
            Some(t) => t,
            None => row.total_amount,
        },
        created_at: row.created_at,
        is_active: row.is_active,
    }
}

impl SaleLedger {
    /// The position of the invoice with identity `id`; meaningful when
    /// one exists.
    pub open spec fn spec_invoice_index(self, id: i32) -> int {
        choose|j: int| 0 <= j < self.invoices@.len() && (#[trigger] self.invoices@[j]).id == id
    }

    /// In a well-formed ledger the invoice of an identity is unique,
    /// and `spec_invoice_index` names it.
    pub proof fn lemma_invoice_index(self, id: i32)
        requires
            self.wf(),
            self.spec_has_invoice(id),
        ensures
            0 <= self.spec_invoice_index(id) < self.invoices@.len(),
            self.invoices@[self.spec_invoice_index(id)].id == id,
            forall|j: int|
                0 <= j < self.invoices@.len() && (#[trigger] self.invoices@[j]).id == id ==> j
                    == self.spec_invoice_index(id),
    {
        let idx = self.spec_invoice_index(id);
        assert forall|j: int|
            0 <= j < self.invoices@.len() && (#[trigger] self.invoices@[j]).id == id implies j
            == idx by {
            if j < idx {
                assert(self.invoices@[j].id < self.invoices@[idx].id);
            } else if j > idx {
                assert(self.invoices@[idx].id < self.invoices@[j].id);
            }
        }
    }

    /// Finds the position of the invoice with identity `id`.
    fn find_invoice_index(&self, id: i32) -> (r: Option<usize>)
        ensures
            r is Some <==> self.spec_has_invoice(id),
            r is Some ==> r->Some_0 < self.invoices@.len()
                && self.invoices@[r->Some_0 as int].id == id,
    {
        let mut k: usize = 0;
        while k < self.invoices.len()
            invariant
                0 <= k <= self.invoices@.len(),
                forall|j: int| 0 <= j < k ==> (#[trigger] self.invoices@[j]).id != id,
            decreases self.invoices@.len() - k,
        {
            if self.invoices[k].id == id {
                return Some(k);
            }
            k = k + 1;
        }
        None
    }

    /// Reads one invoice: its header row and its item rows in stored
    /// order. `None` exactly when no invoice carries the identity.
    pub fn get_order(&self, id: i32) -> (r: Option<(InvoiceRow, Vec<ItemRow>)>)
        requires
            self.wf(),
        ensures
            r is Some <==> self.spec_has_invoice(id),
            r is Some ==> r->Some_0.0 == self.invoices@[self.spec_invoice_index(id)]
                && r->Some_0.1@ == self.items@.filter(|t: ItemRow| t.invoice_id == id),
    {
        match self.find_invoice_index(id) {
            None => None,
            Some(idx) => {
                proof {
                    self.lemma_invoice_index(id);
                }
                let row = clone_invoice_row(&self.invoices[idx]);
                let its = collect_items_of(&self.items, id);
                Some((row, its))
            },
        }
    }

    /// Creates an invoice with its items, as one atomic step: derive
    /// the next number from the last stored one, sum the item totals
    /// exactly, insert the header as a draft, and insert the items in
    /// request order. On any error nothing has happened; the freshly
    /// derived number is never consumed by a failed creation.
    pub fn create_order(
        &mut self,
        req: &CreateOrderRequest,
        created_at: Option<Timestamp>,
    ) -> (r: Result<i32, LedgerError>)
        requires
            old(self).wf(),
            spec_items_wf(req.items@),
        ensures
            final(self).wf(),
            r is Err ==> *final(self) == *old(self),
            (r == Err::<i32, LedgerError>(LedgerError::NumberExhausted)) <==> old(
                self,
            ).spec_number_blocked(),
            (r == Err::<i32, LedgerError>(LedgerError::TotalOverflow)) <==> !old(
                self,
            ).spec_number_blocked() && spec_sum(spec_prices(req.items@)) is None,
            (r == Err::<i32, LedgerError>(LedgerError::IdExhausted)) <==> !old(
                self,
            ).spec_number_blocked() && spec_sum(spec_prices(req.items@)) is Some && (old(
                self,
            ).next_invoice_id == i32::MAX || old(self).next_item_id + req.items@.len()
                > i32::MAX),
            r is Ok <==> !old(self).spec_number_blocked() && spec_sum(spec_prices(req.items@))
                is Some && old(self).next_invoice_id < i32::MAX && old(self).next_item_id
                + req.items@.len() <= i32::MAX,
            r is Ok ==> r->Ok_0 == old(self).next_invoice_id,
            r is Ok ==> final(self).invoices@.len() == old(self).invoices@.len() + 1
                && final(self).invoices@.drop_last() == old(self).invoices@,
            r is Ok ==> final(self).invoices@.last().id == old(self).next_invoice_id
                && final(self).invoices@.last().invoice_number@ == spec_invoice_number(
                old(self).spec_next_seq(),
            ) && final(self).invoices@.last().customer_id == req.customer_id
                && final(self).invoices@.last().total_amount == spec_sum(
                spec_prices(req.items@),
            )->Some_0 && final(self).invoices@.last().total_amount.value() == spec_value_sum(
                spec_prices(req.items@),
            ) && final(self).invoices@.last().invoice_date == req.invoice_date
                && final(self).invoices@.last().payment_date == req.payment_date
                && final(self).invoices@.last().notes == req.notes && final(self).invoices@.last().created_at
                == created_at && final(self).invoices@.last().is_active == false,
            r is Ok ==> final(self).items@ == old(self).items@ + spec_item_rows(
                req.items@,
                old(self).next_invoice_id,
                old(self).next_item_id as int,
            ),
            r is Ok ==> final(self).next_invoice_id == old(self).next_invoice_id + 1
                && final(self).next_item_id == old(self).next_item_id + req.items@.len(),
    {
        // Step one: the sequence number, from the last stored invoice.
        let seqno: u64;
        if self.invoices.len() == 0 {
            seqno = 1;
        } else {
            let last_idx = self.invoices.len() - 1;
            proof {
                lemma_wf_number_facts(self.invoices@[last_idx as int].invoice_number@);
            }
            match sequence_value(self.invoices[last_idx].invoice_number.as_str()) {
                Some(v) => {
                    if v < u64::MAX {
                        seqno = v + 1;
                    } else {
                        return Err(LedgerError::NumberExhausted);
                    }
                },
                None => {
                    proof {
                        assert(false);
                    }
                    return Err(LedgerError::NumberExhausted);
                },
            }
        }
        proof {
            assert(seqno == old(self).spec_next_seq());
        }
        // Step two: the exact total of the item prices.
        let prices = collect_prices(&req.items);
        proof {
            assert forall|i: int| 0 <= i < prices@.len() implies (#[trigger] prices@[i]).wf() by {
                assert(spec_item_wf(req.items@[i]));
            }
        }
        let total = match checked_sum(&prices) {
            Some(t) => t,
            None => {
                return Err(LedgerError::TotalOverflow);
            },
        };
        // Step three: room for the fresh identities.
        if self.next_invoice_id == i32::MAX {
            return Err(LedgerError::IdExhausted);
        }
        let room = (i32::MAX - self.next_item_id) as usize;
        if req.items.len() > room {
            return Err(LedgerError::IdExhausted);
        }
        // Step four: commit — header first, then the items in order.
        let number = format_invoice_number(seqno);
        let new_id = self.next_invoice_id;
        let first_item_id = self.next_item_id;
        let row = InvoiceRow {
            id: new_id,
            invoice_number: number,
            customer_id: req.customer_id,
            total_amount: total,
            invoice_date: req.invoice_date,
            payment_date: req.payment_date,
            notes: clone_opt_string(&req.notes),
            created_at,
            is_active: false,
        };
        self.invoices.push(row);
        let mut rows = build_item_rows(&req.items, new_id, first_item_id);
        self.items.append(&mut rows);
        self.next_invoice_id = new_id + 1;
        self.next_item_id = first_item_id + (req.items.len() as i32);
        proof {
            lemma_generated_number_wf(seqno as nat);
            let oldl = *old(self);
            let n = self.invoices@.len();
            assert(self.invoices@.drop_last() =~= oldl.invoices@);
            assert(self.items@ == oldl.items@ + spec_item_rows(
                req.items@,
                new_id,
                first_item_id as int,
            ));
            // identities of the headers
            assert forall|i: int| 0 <= i < n implies 1 <= (#[trigger] self.invoices@[i]).id
                < self.next_invoice_id by {
                if i < n - 1 {
                    assert(self.invoices@[i] == oldl.invoices@[i]);
                }
            }
            assert forall|i: int, j: int|
                #![trigger self.invoices@[i], self.invoices@[j]]
                0 <= i < j < n implies self.invoices@[i].id < self.invoices@[j].id by {
                if j < n - 1 {
                    assert(self.invoices@[i] == oldl.invoices@[i]);
                    assert(self.invoices@[j] == oldl.invoices@[j]);
                } else {
                    assert(self.invoices@[i] == oldl.invoices@[i]);
                }
            }
            // stored numbers stay canonical and strictly increasing
            assert forall|i: int| 0 <= i < n implies wf_number(
                (#[trigger] self.invoices@[i]).invoice_number@,
            ) by {
                if i < n - 1 {
                    assert(self.invoices@[i] == oldl.invoices@[i]);
                }
            }
            assert forall|i: int, j: int|
                #![trigger self.invoices@[i], self.invoices@[j]]
                0 <= i < j < n implies number_value(self.invoices@[i].invoice_number@)
                < number_value(self.invoices@[j].invoice_number@) by {
                if j < n - 1 {
                    assert(self.invoices@[i] == oldl.invoices@[i]);
                    assert(self.invoices@[j] == oldl.invoices@[j]);
                } else {
                    assert(self.invoices@[i] == oldl.invoices@[i]);
                    if oldl.invoices@.len() > 0 {
                        let m = oldl.invoices@.len() as int - 1;
                        if i < m {
                            assert(number_value(oldl.invoices@[i].invoice_number@) < number_value(
                                oldl.invoices@[m].invoice_number@,
                            ));
                        }
                    }
                }
            }
            // identities of the items
            let ni = self.items@.len();
            let added = spec_item_rows(req.items@, new_id, first_item_id as int);
            assert forall|i: int| 0 <= i < ni implies 1 <= (#[trigger] self.items@[i]).id
                < self.next_item_id by {
                if i < oldl.items@.len() {
                    assert(self.items@[i] == oldl.items@[i]);
                } else {
                    assert(self.items@[i] == added[i - oldl.items@.len()]);
                }
            }
            assert forall|i: int, j: int|
                #![trigger self.items@[i], self.items@[j]]
                0 <= i < j < ni implies self.items@[i].id < self.items@[j].id by {
                let no = oldl.items@.len() as int;
                if j < no {
                    assert(self.items@[i] == oldl.items@[i]);
                    assert(self.items@[j] == oldl.items@[j]);
                } else if i < no {
                    assert(self.items@[i] == oldl.items@[i]);
                    assert(self.items@[j] == added[j - no]);
                } else {
                    assert(self.items@[i] == added[i - no]);
                    assert(self.items@[j] == added[j - no]);
                }
            }
            // no orphans
            assert forall|i: int| 0 <= i < ni implies self.spec_has_invoice(
                (#[trigger] self.items@[i]).invoice_id,
            ) by {
                let no = oldl.items@.len() as int;
                if i < no {
                    assert(self.items@[i] == oldl.items@[i]);
                    assert(oldl.spec_has_invoice(oldl.items@[i].invoice_id));
                    let w = choose|j: int|
                        0 <= j < oldl.invoices@.len() && (#[trigger] oldl.invoices@[j]).id
                            == oldl.items@[i].invoice_id;
                    assert(self.invoices@[w].id == self.items@[i].invoice_id);
                } else {
                    assert(self.items@[i] == added[i - no]);
                    assert(self.invoices@[n - 1].id == new_id);
                }
            }
            // amounts stay representable
            assert forall|i: int| 0 <= i < n implies (#[trigger] self.invoices@[i]).total_amount.wf()
                by {
                if i < n - 1 {
                    assert(self.invoices@[i] == oldl.invoices@[i]);
                }
            }
            assert forall|i: int| 0 <= i < ni implies {
                let it = #[trigger] self.items@[i];
                it.quantity.wf() && it.unit_price.wf() && it.total_price.wf() && (it.discount_auto
                    is Some ==> it.discount_auto->Some_0.wf()) && (it.discount_manual is Some
                    ==> it.discount_manual->Some_0.wf())
            } by {
                let no = oldl.items@.len() as int;
                if i < no {
                    assert(self.items@[i] == oldl.items@[i]);
                } else {
                    assert(self.items@[i] == added[i - no]);
                    assert(spec_item_wf(req.items@[i - no]));
                }
            }
        }
        Ok(new_id)
    }

    /// Updates an invoice partially, as one atomic step: each provided
    /// header field replaces the stored one; a provided item list —
    /// even an empty one — replaces the whole item set and the total
    /// is recomputed from it exactly; with no item list the items and
    /// the total are left untouched. On any error nothing has
    /// happened.
    pub fn update_order(&mut self, id: i32, req: &UpdateOrderRequest) -> (r: Result<
        (),
        LedgerError,
    >)
        requires
            old(self).wf(),
            req.items is Some ==> spec_items_wf(req.items->Some_0@),
        ensures
            final(self).wf(),
            r is Err ==> *final(self) == *old(self),
            (r == Err::<(), LedgerError>(LedgerError::NotFound)) <==> !old(self).spec_has_invoice(
                id,
            ),
            (r == Err::<(), LedgerError>(LedgerError::TotalOverflow)) <==> old(
                self,
            ).spec_has_invoice(id) && req.items is Some && spec_sum(
                spec_prices(req.items->Some_0@),
            ) is None,
            (r == Err::<(), LedgerError>(LedgerError::IdExhausted)) <==> old(
                self,
            ).spec_has_invoice(id) && req.items is Some && spec_sum(spec_prices(req.items->Some_0@))
                is Some && old(self).next_item_id + req.items->Some_0@.len() > i32::MAX,
            r is Ok <==> old(self).spec_has_invoice(id) && (req.items is None || (spec_sum(
                spec_prices(req.items->Some_0@),
            ) is Some && old(self).next_item_id + req.items->Some_0@.len() <= i32::MAX)),
            r is Ok ==> final(self).invoices@ == old(self).invoices@.update(
                old(self).spec_invoice_index(id),
                spec_updated_header(
                    old(self).invoices@[old(self).spec_invoice_index(id)],
                    *req,
                    if req.items is Some {
                        spec_sum(spec_prices(req.items->Some_0@))
                    } else {
                        None
                    },
                ),
            ),
            r is Ok && req.items is Some ==> final(self).items@ == old(self).items@.filter(
                |t: ItemRow| t.invoice_id != id,
            ) + spec_item_rows(req.items->Some_0@, id, old(self).next_item_id as int),
            r is Ok && req.items is Some ==> final(self).items@.filter(
                |t: ItemRow| t.invoice_id == id,
            ) == spec_item_rows(req.items->Some_0@, id, old(self).next_item_id as int),
            r is Ok && req.items is Some ==> final(self).next_item_id == old(self).next_item_id
                + req.items->Some_0@.len() && final(self).invoices@[old(self).spec_invoice_index(
                id,
            )].total_amount.value() == spec_value_sum(spec_prices(req.items->Some_0@)),
            r is Ok && req.items is None ==> final(self).items@ == old(self).items@
                && final(self).next_item_id == old(self).next_item_id,
            final(self).next_invoice_id == old(self).next_invoice_id,
    {
        let idx = match self.find_invoice_index(id) {
            Some(i) => i,
            None => {
                return Err(LedgerError::NotFound);
            },
        };
        proof {
            old(self).lemma_invoice_index(id);
        }
        match &req.items {
            None => {
                let row = coalesced_row(&self.invoices[idx], req, None);
                self.invoices.set(idx, row);
                proof {
                    self.lemma_header_update_wf(*old(self), idx as int);
                }
                Ok(())
            },
            Some(items) => {
                let prices = collect_prices(items);
                proof {
                    assert forall|i: int| 0 <= i < prices@.len() implies (
                    #[trigger] prices@[i]).wf() by {
                        assert(spec_item_wf(req.items->Some_0@[i]));
                    }
                }
                let total = match checked_sum(&prices) {
                    Some(t) => t,
                    None => {
                        return Err(LedgerError::TotalOverflow);
                    },
                };
                let room = (i32::MAX - self.next_item_id) as usize;
                if items.len() > room {
                    return Err(LedgerError::IdExhausted);
                }
                let row = coalesced_row(&self.invoices[idx], req, Some(total));
                let first_item_id = self.next_item_id;
                self.invoices.set(idx, row);
                let kept_items = retain_items_not_of(&self.items, id);
                self.items = kept_items;
                let mut rows = build_item_rows(items, id, first_item_id);
                self.items.append(&mut rows);
                self.next_item_id = first_item_id + (items.len() as i32);
                proof {
                    let oldl = *old(self);
                    let ipred = |t: ItemRow| t.invoice_id != id;
                    let eqpred = |t: ItemRow| t.invoice_id == id;
                    let kept = oldl.items@.filter(ipred);
                    let added = spec_item_rows(req.items->Some_0@, id, first_item_id as int);
                    let mid = SaleLedger {
                        invoices: self.invoices,
                        items: oldl.items,
                        next_invoice_id: oldl.next_invoice_id,
                        next_item_id: oldl.next_item_id,
                    };
                    mid.lemma_header_update_wf(oldl, idx as int);
                    lemma_filter_membership(oldl.items@, ipred);
                    lemma_filter_ordered(oldl.items@, ipred, |a: ItemRow, b: ItemRow| a.id < b.id);
                    // item identities: kept ones stay below the old counter,
                    // fresh ones follow it
                    assert forall|i: int| 0 <= i < self.items@.len() implies {
                        let it = #[trigger] self.items@[i];
                        1 <= it.id < self.next_item_id && it.quantity.wf() && it.unit_price.wf()
                            && it.total_price.wf() && (it.discount_auto is Some
                            ==> it.discount_auto->Some_0.wf()) && (it.discount_manual is Some
                            ==> it.discount_manual->Some_0.wf()) && self.spec_has_invoice(
                            it.invoice_id,
                        )
                    } by {
                        let nk = kept.len() as int;
                        if i < nk {
                            assert(self.items@[i] == kept[i]);
                            assert(oldl.items@.contains(kept[i]));
                            let w = choose|w: int|
                                0 <= w < oldl.items@.len() && oldl.items@[w] == kept[i];
                            assert(oldl.items@[w] == kept[i]);
                            let it = self.items@[i];
                            assert(oldl.spec_has_invoice(it.invoice_id));
                            let v = choose|v: int|
                                0 <= v < oldl.invoices@.len() && (#[trigger] oldl.invoices@[v]).id
                                    == it.invoice_id;
                            assert(self.invoices@[v].id == it.invoice_id);
                        } else {
                            assert(self.items@[i] == added[i - nk]);
                            assert(spec_item_wf(req.items->Some_0@[i - nk]));
                            assert(self.invoices@[idx as int].id == id);
                        }
                    }
                    assert forall|i: int, j: int|
                        #![trigger self.items@[i], self.items@[j]]
                        0 <= i < j < self.items@.len() implies self.items@[i].id
                        < self.items@[j].id by {
                        let nk = kept.len() as int;
                        if j < nk {
                            assert(self.items@[i] == kept[i]);
                            assert(self.items@[j] == kept[j]);
                        } else if i < nk {
                            assert(self.items@[i] == kept[i]);
                            assert(oldl.items@.contains(kept[i]));
                            let w = choose|w: int|
                                0 <= w < oldl.items@.len() && oldl.items@[w] == kept[i];
                            assert(oldl.items@[w] == kept[i]);
                            assert(self.items@[j] == added[j - nk]);
                        } else {
                            assert(self.items@[i] == added[i - nk]);
                            assert(self.items@[j] == added[j - nk]);
                        }
                    }
                    // the replaced set is exactly the fresh rows
                    Seq::filter_distributes_over_add(kept, added, eqpred);
                    assert forall|i: int| 0 <= i < kept.len() implies !eqpred(
                        #[trigger] kept[i],
                    ) by {
                        oldl.items@.lemma_filter_pred(ipred, i);
                    }
                    lemma_filter_none(kept, eqpred);
                    assert(forall|i: int| 0 <= i < added.len() ==> eqpred(#[trigger] added[i]));
                    lemma_filter_all(added, eqpred);
                    assert(self.items@.filter(eqpred) =~= added);
                }
                Ok(())
            },
        }
    }

    /// Replacing one header row with a row that keeps its identity,
    /// number and total well-formedness preserves the ledger invariant.
    proof fn lemma_header_update_wf(self, prev: SaleLedger, idx: int)
        requires
            prev.wf(),
            0 <= idx < prev.invoices@.len(),
            self.items == prev.items,
            self.next_invoice_id == prev.next_invoice_id,
            self.next_item_id == prev.next_item_id,
            self.invoices@.len() == prev.invoices@.len(),
            forall|i: int|
                0 <= i < prev.invoices@.len() && i != idx ==> self.invoices@[i]
                    == prev.invoices@[i],
            self.invoices@[idx].id == prev.invoices@[idx].id,
            self.invoices@[idx].invoice_number == prev.invoices@[idx].invoice_number,
            self.invoices@[idx].total_amount.wf(),
        ensures
            self.wf(),
    {
        assert forall|i: int| 0 <= i < self.invoices@.len() implies 1 <= (
        #[trigger] self.invoices@[i]).id < self.next_invoice_id && wf_number(
            self.invoices@[i].invoice_number@,
        ) && self.invoices@[i].total_amount.wf() by {
            if i != idx {
                assert(self.invoices@[i] == prev.invoices@[i]);
            }
        }
        assert forall|i: int, j: int|
            #![trigger self.invoices@[i], self.invoices@[j]]
            0 <= i < j < self.invoices@.len() implies self.invoices@[i].id < self.invoices@[j].id
            && number_value(self.invoices@[i].invoice_number@) < number_value(
            self.invoices@[j].invoice_number@,
        ) by {
            assert(prev.invoices@[i].id < prev.invoices@[j].id);
            assert(number_value(prev.invoices@[i].invoice_number@) < number_value(
                prev.invoices@[j].invoice_number@,
            ));
            if i != idx {
                assert(self.invoices@[i] == prev.invoices@[i]);
            }
            if j != idx {
                assert(self.invoices@[j] == prev.invoices@[j]);
            }
        }
        assert forall|i: int| 0 <= i < self.items@.len() implies self.spec_has_invoice(
            (#[trigger] self.items@[i]).invoice_id,
        ) by {
            assert(prev.spec_has_invoice(prev.items@[i].invoice_id));
            let w = choose|j: int|
                0 <= j < prev.invoices@.len() && (#[trigger] prev.invoices@[j]).id
                    == prev.items@[i].invoice_id;
            assert(self.invoices@[w].id == self.items@[i].invoice_id);
        }
    }

    /// Deletes an invoice: its item rows first, then the header, so
    /// that no orphaned item row can ever remain. Deleting an absent
    /// identity leaves the ledger as it is.
    pub fn delete_order(&mut self, id: i32)
        requires
            old(self).wf(),
        ensures
            final(self).wf(),
            final(self).items@ == old(self).items@.filter(|t: ItemRow| t.invoice_id != id),
            final(self).invoices@ == old(self).invoices@.filter(|w: InvoiceRow| w.id != id),
            forall|i: int|
                0 <= i < final(self).items@.len() ==> (#[trigger] final(self).items@[i]).invoice_id
                    != id,
            final(self).next_invoice_id == old(self).next_invoice_id,
            final(self).next_item_id == old(self).next_item_id,
    {
        let kept_items = retain_items_not_of(&self.items, id);
        self.items = kept_items;
        let kept_invoices = retain_invoices_not(&self.invoices, id);
        self.invoices = kept_invoices;
        proof {
            let oldl = *old(self);
            let ipred = |t: ItemRow| t.invoice_id != id;
            let vpred = |w: InvoiceRow| w.id != id;
            lemma_filter_membership(oldl.items@, ipred);
            lemma_filter_membership(oldl.invoices@, vpred);
            lemma_filter_ordered(oldl.items@, ipred, |a: ItemRow, b: ItemRow| a.id < b.id);
            lemma_filter_ordered(
                oldl.invoices@,
                vpred,
                |a: InvoiceRow, b: InvoiceRow| a.id < b.id,
            );
            lemma_filter_ordered(
                oldl.invoices@,
                vpred,
                |a: InvoiceRow, b: InvoiceRow| number_value(a.invoice_number@) < number_value(
                    b.invoice_number@,
                ),
            );
            assert forall|i: int| 0 <= i < self.invoices@.len() implies 1 <= (
            #[trigger] self.invoices@[i]).id < self.next_invoice_id && wf_number(
                self.invoices@[i].invoice_number@,
            ) && self.invoices@[i].total_amount.wf() by {
                assert(oldl.invoices@.contains(self.invoices@[i]));
                let w = choose|w: int|
                    0 <= w < oldl.invoices@.len() && oldl.invoices@[w] == self.invoices@[i];
                assert(oldl.invoices@[w] == self.invoices@[i]);
            }
            assert forall|i: int| 0 <= i < self.items@.len() implies {
                let it = #[trigger] self.items@[i];
                1 <= it.id < self.next_item_id && it.quantity.wf() && it.unit_price.wf()
                    && it.total_price.wf() && (it.discount_auto is Some
                    ==> it.discount_auto->Some_0.wf()) && (it.discount_manual is Some
                    ==> it.discount_manual->Some_0.wf()) && self.spec_has_invoice(it.invoice_id)
            } by {
                assert(oldl.items@.contains(self.items@[i]));
                let w = choose|w: int| 0 <= w < oldl.items@.len() && oldl.items@[w]
                    == self.items@[i];
                assert(oldl.items@[w] == self.items@[i]);
                let it = self.items@[i];
                assert(oldl.spec_has_invoice(it.invoice_id));
                let v = choose|v: int|
                    0 <= v < oldl.invoices@.len() && (#[trigger] oldl.invoices@[v]).id
                        == it.invoice_id;
                assert(it.invoice_id != id);
                assert(vpred(oldl.invoices@[v]));
                oldl.invoices@.lemma_filter_contains(vpred, v);
                assert(self.invoices@.contains(oldl.invoices@[v]));
                let u = choose|u: int|
                    0 <= u < self.invoices@.len() && self.invoices@[u] == oldl.invoices@[v];
                assert(self.invoices@[u].id == it.invoice_id);
            }
        }
    }

    /// Sets the active flag of one invoice and touches nothing else;
    /// an absent identity leaves the ledger as it is.
    pub fn set_active_status(&mut self, id: i32, is_active: bool)
        requires
            old(self).wf(),
        ensures
            final(self).wf(),
            final(self).items@ == old(self).items@,
            final(self).next_invoice_id == old(self).next_invoice_id,
            final(self).next_item_id == old(self).next_item_id,
            !old(self).spec_has_invoice(id) ==> *final(self) == *old(self),
            old(self).spec_has_invoice(id) ==> final(self).invoices@ == old(
                self,
            ).invoices@.update(
                old(self).spec_invoice_index(id),
                (InvoiceRow {
                    is_active,
                    ..old(self).invoices@[old(self).spec_invoice_index(id)]
                }),
            ),
    {
        let idx = match self.find_invoice_index(id) {
            Some(i) => i,
            None => {
                return ;
            },
        };
        proof {
            old(self).lemma_invoice_index(id);
        }
        let row = InvoiceRow { is_active, ..clone_invoice_row(&self.invoices[idx]) };
        self.invoices.set(idx, row);
        proof {
            let oldl = *old(self);
            let n = self.invoices@.len();
            assert forall|i: int| 0 <= i < n implies 1 <= (#[trigger] self.invoices@[i]).id
                < self.next_invoice_id && wf_number(self.invoices@[i].invoice_number@)
                && self.invoices@[i].total_amount.wf() by {
                if i != idx {
                    assert(self.invoices@[i] == oldl.invoices@[i]);
                }
            }
            assert forall|i: int, j: int|
                #![trigger self.invoices@[i], self.invoices@[j]]
                0 <= i < j < n implies self.invoices@[i].id < self.invoices@[j].id
                && number_value(self.invoices@[i].invoice_number@) < number_value(
                self.invoices@[j].invoice_number@,
            ) by {
                assert(oldl.invoices@[i].id < oldl.invoices@[j].id);
                assert(number_value(oldl.invoices@[i].invoice_number@) < number_value(
                    oldl.invoices@[j].invoice_number@,
                ));
                if i != idx {
                    assert(self.invoices@[i] == oldl.invoices@[i]);
                }
                if j != idx {
                    assert(self.invoices@[j] == oldl.invoices@[j]);
                }
            }
            assert forall|i: int| 0 <= i < self.items@.len() implies self.spec_has_invoice(
                (#[trigger] self.items@[i]).invoice_id,
            ) by {
                assert(oldl.spec_has_invoice(oldl.items@[i].invoice_id));
                let w = choose|j: int|
                    0 <= j < oldl.invoices@.len() && (#[trigger] oldl.invoices@[j]).id
                        == oldl.items@[i].invoice_id;
                assert(self.invoices@[w].id == self.items@[i].invoice_id);
            }
        }
    }
}

} // verus!
