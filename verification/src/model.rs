//! The allocation domain model: order lines, stock batches, and the
//! batch-selection service.

use vstd::prelude::*;

use crate::date::Date;
use crate::date::eta_le;
use crate::date::eta_lt;
use crate::date::eta_precedes;
use crate::error::Error;

verus! {

/// The mathematical value of an [`OrderLine`]: its three attributes as
/// plain sequences and an unbounded integer.
pub ghost struct OrderLineView {
    pub orderid: Seq<char>,
    pub sku: Seq<char>,
    pub qty: int,
}

/// A single requested quantity of a SKU for an order.
///
/// Order lines are immutable values; two order lines are equal exactly
/// when all three attributes are equal.
#[derive(Debug, Clone)]
pub struct OrderLine {
    orderid: String,
    sku: String,
    qty: u32,
}

impl View for OrderLine {
    type V = OrderLineView;

    closed spec fn view(&self) -> OrderLineView {
        OrderLineView { orderid: self.orderid@, sku: self.sku@, qty: self.qty as int }
    }
}

impl OrderLine {
    pub fn new(orderid: String, sku: String, qty: u32) -> (line: OrderLine)
        ensures
            line@ == (OrderLineView { orderid: orderid@, sku: sku@, qty: qty as int }),
    {
        OrderLine { orderid, sku, qty }
    }

    pub fn orderid(&self) -> (r: &String)
        ensures
            r@ == self@.orderid,
    {
        &self.orderid
    }

    pub fn sku(&self) -> (r: &String)
        ensures
            r@ == self@.sku,
    {
        &self.sku
    }

    pub fn qty(&self) -> (r: u32)
        ensures
            r as int == self@.qty,
    {
        self.qty
    }
}

impl PartialEq for OrderLine {
    fn eq(&self, other: &OrderLine) -> (r: bool) {
        self.orderid == other.orderid && self.sku == other.sku && self.qty == other.qty
    }
}

impl vstd::std_specs::cmp::PartialEqSpecImpl for OrderLine {
    open spec fn obeys_eq_spec() -> bool {
        true
    }

    open spec fn eq_spec(&self, other: &OrderLine) -> bool {
        self@ == other@
    }
}

/// No two entries of `s` are equal order-line values: the sequence
/// represents a set.
pub open spec fn distinct_lines(s: Seq<OrderLineView>) -> bool {
    forall|i: int, j: int| 0 <= i < j < s.len() ==> s[i] != s[j]
}

/// Every quantity in `s` is non-negative.
pub open spec fn lines_nonneg(s: Seq<OrderLineView>) -> bool {
    forall|i: int| 0 <= i < s.len() ==> #[trigger] s[i].qty >= 0
}

/// The total quantity requested by the order lines of `s`.
pub open spec fn sum_qty(s: Seq<OrderLineView>) -> int
    decreases s.len(),
{
    if s.len() == 0 {
        0
    } else {
        sum_qty(s.drop_last()) + s.last().qty
    }
}

pub proof fn lemma_sum_qty_nonneg(s: Seq<OrderLineView>)
    requires
        lines_nonneg(s),
    ensures
        sum_qty(s) >= 0,
    decreases s.len(),
{
    if s.len() > 0 {
        assert(forall|i: int|
            0 <= i < s.drop_last().len() ==> #[trigger] s.drop_last()[i].qty >= 0);
        lemma_sum_qty_nonneg(s.drop_last());
    }
}

pub proof fn lemma_sum_qty_push(s: Seq<OrderLineView>, l: OrderLineView)
    ensures
        sum_qty(s.push(l)) == sum_qty(s) + l.qty,
{
    assert(s.push(l).drop_last() =~= s);
    assert(s.push(l).last() == l);
}

pub proof fn lemma_sum_qty_append(a: Seq<OrderLineView>, b: Seq<OrderLineView>)
    ensures
        sum_qty(a + b) == sum_qty(a) + sum_qty(b),
    decreases b.len(),
{
    if b.len() == 0 {
        assert(a + b =~= a);
    } else {
        lemma_sum_qty_append(a, b.drop_last());
        assert((a + b).drop_last() =~= a + b.drop_last());
        assert((a + b).last() == b.last());
    }
}

pub proof fn lemma_sum_qty_remove(s: Seq<OrderLineView>, i: int)
    requires
        0 <= i < s.len(),
    ensures
        sum_qty(s.remove(i)) == sum_qty(s) - s[i].qty,
{
    let left = s.subrange(0, i);
    let mid = seq![s[i]];
    let right = s.subrange(i + 1, s.len() as int);
    assert(mid.drop_last() =~= Seq::<OrderLineView>::empty());
    assert(sum_qty(Seq::<OrderLineView>::empty()) == 0);
    assert(sum_qty(mid) == s[i].qty);
    assert(s =~= left + (mid + right));
    lemma_sum_qty_append(left, mid + right);
    lemma_sum_qty_append(mid, right);
    assert(s.remove(i) =~= left + right);
    lemma_sum_qty_append(left, right);
}

/// Extending a prefix of `s` by one element adds that element's quantity.
pub proof fn lemma_sum_qty_take_succ(s: Seq<OrderLineView>, i: int)
    requires
        0 <= i < s.len(),
    ensures
        sum_qty(s.take(i + 1)) == sum_qty(s.take(i)) + s[i].qty,
{
    assert(s.take(i + 1).drop_last() =~= s.take(i));
    assert(s.take(i + 1).last() == s[i]);
}

/// With non-negative quantities, a prefix sums to no more than the whole.
pub proof fn lemma_sum_qty_take_le(s: Seq<OrderLineView>, i: int)
    requires
        lines_nonneg(s),
        0 <= i <= s.len(),
    ensures
        sum_qty(s.take(i)) <= sum_qty(s),
    decreases s.len() - i,
{
    if i == s.len() {
        assert(s.take(i) =~= s);
    } else {
        lemma_sum_qty_take_succ(s, i);
        lemma_sum_qty_take_le(s, i + 1);
    }
}

/// The mathematical value of a [`Batch`]: its attributes as plain values
/// and its allocation set as a duplicate-free sequence of order-line
/// values.
pub ghost struct BatchView {
    pub reference: Seq<char>,
    pub sku: Seq<char>,
    pub eta: Option<Date>,
    pub purchased_quantity: int,
    pub allocations: Seq<OrderLineView>,
}

impl BatchView {
    /// The total quantity already allocated to this batch.
    pub open spec fn allocated_quantity(self) -> int {
        sum_qty(self.allocations)
    }

    /// What is left of the purchased quantity after all allocations.
    pub open spec fn available_quantity(self) -> int {
        self.purchased_quantity - self.allocated_quantity()
    }

    pub open spec fn contains_line(self, line: OrderLineView) -> bool {
        self.allocations.contains(line)
    }

    /// The batch can take the line: matching SKU and enough stock left.
    pub open spec fn can_allocate(self, line: OrderLineView) -> bool {
        self.sku == line.sku && line.qty <= self.available_quantity()
    }

    /// The batch after an `allocate` call: the line joins the allocation
    /// set when the batch can take it (re-adding a present line, or an
    /// ineligible call, changes nothing).
    pub open spec fn allocate(self, line: OrderLineView) -> BatchView {
        if self.can_allocate(line) && !self.contains_line(line) {
            BatchView { allocations: self.allocations.push(line), ..self }
        } else {
            self
        }
    }

    /// The batch after a `deallocate` call: the line leaves the
    /// allocation set if present, and nothing happens otherwise.
    pub open spec fn deallocate(self, line: OrderLineView) -> BatchView {
        BatchView { allocations: self.allocations.remove_value(line), ..self }
    }

    /// The invariant every reachable batch satisfies: the allocation set
    /// holds no duplicates, quantities are non-negative, and the
    /// allocated total never exceeds the purchased quantity.
    pub open spec fn wf(self) -> bool {
        &&& distinct_lines(self.allocations)
        &&& lines_nonneg(self.allocations)
        &&& self.allocated_quantity() <= self.purchased_quantity
    }
}

/// A restockable quantity of a single SKU arriving at a known or unknown
/// time, together with the order lines currently allocated to it.
///
/// The allocation set is held as a duplicate-free vector with linear-scan
/// membership, preserving exact value-equality set semantics.
#[derive(Debug)]
pub struct Batch {
    reference: String,
    sku: String,
    eta: Option<Date>,
    purchased_quantity: u32,
    allocations: Vec<OrderLine>,
}

impl View for Batch {
    type V = BatchView;

    closed spec fn view(&self) -> BatchView {
        BatchView {
            reference: self.reference@,
            sku: self.sku@,
            eta: self.eta,
            purchased_quantity: self.purchased_quantity as int,
            allocations: Seq::new(self.allocations@.len() as nat, |i: int| self.allocations@[i]@),
        }
    }
}

impl Batch {
    /// A fresh batch with no allocations.
    pub fn new(reference: String, sku: String, qty: u32, eta: Option<Date>) -> (batch: Batch)
        ensures
            batch@ == (BatchView {
                reference: reference@,
                sku: sku@,
                eta,
                purchased_quantity: qty as int,
                allocations: Seq::<OrderLineView>::empty(),
            }),
            batch@.wf(),
    {
        let batch = Batch {
            reference,
            sku,
            eta,
            purchased_quantity: qty,
            allocations: Vec::new(),
        };
        proof {
            assert(batch@.allocations =~= Seq::<OrderLineView>::empty());
            assert(sum_qty(Seq::<OrderLineView>::empty()) == 0);
        }
        batch
    }

    /// Reconstruct a batch from storage with a pre-populated allocation
    /// set.
    ///
    /// The batch is returned exactly when `allocations` could have been
    /// produced by this model: no two lines are equal by value and their
    /// total quantity does not exceed the purchased quantity. Any other
    /// collection does not represent a reachable batch state and yields
    /// `None`.
    pub fn with_allocations(
        reference: String,
        sku: String,
        qty: u32,
        eta: Option<Date>,
        allocations: Vec<OrderLine>,
    ) -> (result: Option<Batch>)
        ensures
            ({
                let lines = Seq::new(allocations@.len() as nat, |i: int| allocations@[i]@);
                match result {
                    Some(batch) => {
                        &&& distinct_lines(lines)
                        &&& sum_qty(lines) <= qty as int
                        &&& batch@ == (BatchView {
                            reference: reference@,
                            sku: sku@,
                            eta,
                            purchased_quantity: qty as int,
                            allocations: lines,
                        })
                        &&& batch@.wf()
                    },
                    None => !(distinct_lines(lines) && sum_qty(lines) <= qty as int),
                }
            }),
    {
        let ghost lines = Seq::new(allocations@.len() as nat, |i: int| allocations@[i]@);
        let n = allocations.len();
        let mut i: usize = 0;
        while i < n
            invariant
                i <= n,
                n == allocations@.len(),
                lines.len() == n,
                forall|t: int| 0 <= t < n ==> lines[t] == allocations@[t]@,
                forall|a: int, b: int| 0 <= a < b < n && a < i ==> lines[a] != lines[b],
            decreases n - i,
        {
            let mut j: usize = i + 1;
            while j < n
                invariant
                    i < j <= n,
                    i < n,
                    n == allocations@.len(),
                    lines.len() == n,
                    forall|t: int| 0 <= t < n ==> lines[t] == allocations@[t]@,
                    forall|b: int| i < b < j ==> lines[i as int] != lines[b],
                decreases n - j,
            {
                if allocations[i] == allocations[j] {
                    proof {
                        assert(Seq::new(allocations@.len() as nat, |t: int| allocations@[t]@)
                            =~= lines);
                        assert(lines[i as int] == lines[j as int]);
                    }
                    return Option::None;
                }
                j = j + 1;
            }
            i = i + 1;
        }
        let mut total: u64 = 0;
        let mut k: usize = 0;
        while k < n
            invariant
                k <= n,
                n == allocations@.len(),
                lines.len() == n,
                forall|t: int| 0 <= t < n ==> lines[t] == allocations@[t]@,
                total as int == sum_qty(lines.take(k as int)),
                total <= qty as u64,
            decreases n - k,
        {
            proof {
                lemma_sum_qty_take_succ(lines, k as int);
            }
            total = total + allocations[k].qty as u64;
            if total > qty as u64 {
                proof {
                    assert(Seq::new(allocations@.len() as nat, |t: int| allocations@[t]@)
                        =~= lines);
                    assert(lines_nonneg(lines));
                    lemma_sum_qty_take_le(lines, k as int + 1);
                }
                return Option::None;
            }
            k = k + 1;
        }
        proof {
            assert(lines.take(n as int) =~= lines);
        }
        let batch = Batch {
            reference,
            sku,
            eta,
            purchased_quantity: qty,
            allocations,
        };
        proof {
            assert(batch@.allocations =~= lines);
            assert(lines_nonneg(lines));
        }
        Some(batch)
    }

    /// Whether `line` is already in this batch's allocation set.
    pub fn contains_line(&self, line: &OrderLine) -> (r: bool)
        ensures
            r == self@.contains_line(line@),
    {
        let mut idx: usize = 0;
        while idx < self.allocations.len()
            invariant
                idx <= self.allocations.len(),
                forall|j: int| 0 <= j < idx ==> self@.allocations[j] != line@,
            decreases self.allocations.len() - idx,
        {
            if self.allocations[idx] == *line {
                assert(self@.allocations[idx as int] == line@);
                return true;
            }
            idx = idx + 1;
        }
        false
    }

    /// True iff the line's SKU matches and the available quantity covers
    /// the requested quantity.
    pub fn can_allocate(&self, line: &OrderLine) -> (r: bool)
        requires
            self@.wf(),
        ensures
            r == self@.can_allocate(line@),
    {
        self.sku == line.sku && self.available_quantity() >= line.qty
    }

    /// The total quantity of the order lines allocated to this batch.
    pub fn allocated_quantity(&self) -> (total: u32)
        requires
            self@.wf(),
        ensures
            total as int == self@.allocated_quantity(),
    {
        let ghost lines = self@.allocations;
        let mut total: u32 = 0;
        let mut idx: usize = 0;
        while idx < self.allocations.len()
            invariant
                idx <= self.allocations.len(),
                self@.wf(),
                lines == self@.allocations,
                total as int == sum_qty(lines.take(idx as int)),
            decreases self.allocations.len() - idx,
        {
            proof {
                lemma_sum_qty_take_succ(lines, idx as int);
                lemma_sum_qty_take_le(lines, idx as int + 1);
            }
            total = total + self.allocations[idx].qty;
            idx = idx + 1;
        }
        proof {
            assert(lines.take(self.allocations@.len() as int) =~= lines);
        }
        total
    }

    /// What is left of the purchased quantity after all allocations;
    /// never negative.
    pub fn available_quantity(&self) -> (quantity: u32)
        requires
            self@.wf(),
        ensures
            quantity as int == self@.available_quantity(),
    {
        proof {
            lemma_sum_qty_nonneg(self@.allocations);
        }
        self.purchased_quantity - self.allocated_quantity()
    }

    /// Insert `line` into the allocation set if this batch can take it;
    /// an ineligible call, or re-adding a line already present, changes
    /// nothing.
    pub fn allocate(&mut self, line: OrderLine)
        requires
            old(self)@.wf(),
        ensures
            final(self)@ == old(self)@.allocate(line@),
            final(self)@.wf(),
    {
        if self.can_allocate(&line) && !self.contains_line(&line) {
            proof {
                lemma_sum_qty_push(self@.allocations, line@);
            }
            self.allocations.push(line);
            proof {
                assert(self@.allocations =~= old(self)@.allocations.push(line@));
            }
        }
    }

    /// Remove `line` from the allocation set if present; a line that was
    /// never allocated here is ignored.
    pub fn deallocate(&mut self, line: OrderLine)
        requires
            old(self)@.wf(),
        ensures
            final(self)@ == old(self)@.deallocate(line@),
            final(self)@.wf(),
    {
        let ghost lines = old(self)@.allocations;
        let mut idx: usize = 0;
        while idx < self.allocations.len()
            invariant
                idx <= self.allocations.len(),
                *self == *old(self),
                old(self)@.wf(),
                lines == self@.allocations,
                forall|j: int| 0 <= j < idx ==> lines[j] != line@,
            decreases self.allocations.len() - idx,
        {
            if self.allocations[idx] == line {
                proof {
                    assert(lines[idx as int] == line@);
                    lines.index_of_first_ensures(line@);
                    lemma_sum_qty_remove(lines, idx as int);
                    lines.remove_ensures(idx as int);
                }
                self.allocations.remove(idx);
                proof {
                    assert(self@.allocations =~= lines.remove(idx as int));
                    let rem = lines.remove(idx as int);
                    assert forall|a: int, b: int| 0 <= a < b < rem.len() implies rem[a] != rem[b] by {
                        assert(rem[a] == if a < idx as int { lines[a] } else { lines[a + 1] });
                        assert(rem[b] == if b < idx as int { lines[b] } else { lines[b + 1] });
                    };
                    assert forall|a: int| 0 <= a < rem.len() implies #[trigger] rem[a].qty >= 0 by {
                        assert(rem[a] == if a < idx as int { lines[a] } else { lines[a + 1] });
                    };
                }
                return;
            }
            idx = idx + 1;
        }
        proof {
            lines.index_of_first_ensures(line@);
        }
    }

    /// The unique identifier of this batch.
    pub fn reference(&self) -> (r: &String)
        ensures
            r@ == self@.reference,
    {
        &self.reference
    }

    /// The SKU this batch stocks.
    pub fn sku(&self) -> (r: &String)
        ensures
            r@ == self@.sku,
    {
        &self.sku
    }

    /// The total stock this batch was purchased with.
    pub fn purchased_quantity(&self) -> (r: u32)
        ensures
            r as int == self@.purchased_quantity,
    {
        self.purchased_quantity
    }

    /// The batch's expected arrival date; `None` means the stock is
    /// already on hand.
    pub fn eta(&self) -> (r: Option<Date>)
        ensures
            r == self@.eta,
    {
        self.eta
    }

    /// The order lines currently allocated to this batch.
    pub fn allocations(&self) -> (r: &Vec<OrderLine>)
        ensures
            r@.len() == self@.allocations.len(),
            forall|i: int| 0 <= i < r@.len() ==> (#[trigger] r@[i])@ == self@.allocations[i],
    {
        &self.allocations
    }
}

impl PartialEq for Batch {
    /// A batch's identity is its reference alone: `sku`, quantities and
    /// `eta` take no part in equality.
    fn eq(&self, other: &Batch) -> (r: bool) {
        self.reference == other.reference
    }
}

impl vstd::std_specs::cmp::PartialEqSpecImpl for Batch {
    open spec fn obeys_eq_spec() -> bool {
        true
    }

    open spec fn eq_spec(&self, other: &Batch) -> bool {
        self@.reference == other@.reference
    }
}

/// Allocate `line` to the most preferred eligible batch of `batches`:
/// batches already in stock (no eta) before shipments, and among
/// shipments the earliest arrival; among tied batches the one listed
/// first.
///
/// On success exactly one batch gains the line and its reference is
/// returned; when no batch can take the line, nothing is mutated and
/// `Error::OutOfStock` carries the line's SKU.
pub fn allocate(line: OrderLine, batches: &mut Vec<Batch>) -> (result: Result<String, Error>)
    requires
        forall|k: int| 0 <= k < old(batches)@.len() ==> (#[trigger] old(batches)@[k])@.wf(),
    ensures
        final(batches)@.len() == old(batches)@.len(),
        forall|k: int| 0 <= k < final(batches)@.len() ==> (#[trigger] final(batches)@[k])@.wf(),
        match result {
            Ok(reference) => exists|i: int| {
                &&& 0 <= i < old(batches)@.len()
                &&& (#[trigger] old(batches)@[i])@.can_allocate(line@)
                &&& forall|j: int|
                    0 <= j < old(batches)@.len() && (#[trigger] old(batches)@[j])@.can_allocate(
                        line@,
                    ) ==> eta_le(old(batches)@[i]@.eta, old(batches)@[j]@.eta)
                &&& forall|j: int|
                    0 <= j < i && (#[trigger] old(batches)@[j])@.can_allocate(line@) ==> eta_lt(
                        old(batches)@[i]@.eta,
                        old(batches)@[j]@.eta,
                    )
                &&& final(batches)@[i]@ == old(batches)@[i]@.allocate(line@)
                &&& forall|j: int|
                    0 <= j < old(batches)@.len() && j != i ==> final(batches)@[j] == old(
                        batches,
                    )@[j]
                &&& reference@ == old(batches)@[i]@.reference
            },
            Err(e) => {
                &&& e matches Error::OutOfStock(sku) && sku@ == line@.sku
                &&& forall|j: int|
                    0 <= j < old(batches)@.len() ==> !(#[trigger] old(batches)@[j])@.can_allocate(
                        line@,
                    )
                &&& final(batches)@ == old(batches)@
            },
        },
{
    let ghost prior = batches@;
    let n = batches.len();
    let mut best: Option<usize> = None;
    let mut idx: usize = 0;
    while idx < n
        invariant
            idx <= n,
            n == batches@.len(),
            batches@ == prior,
            forall|k: int| 0 <= k < prior.len() ==> (#[trigger] prior[k])@.wf(),
            match best {
                Some(b) => {
                    &&& (b as int) < idx as int
                    &&& prior[b as int]@.can_allocate(line@)
                    &&& forall|j: int|
                        0 <= j < idx && (#[trigger] prior[j])@.can_allocate(line@) ==> eta_le(
                            prior[b as int]@.eta,
                            prior[j]@.eta,
                        )
                    &&& forall|j: int|
                        0 <= j < b && (#[trigger] prior[j])@.can_allocate(line@) ==> eta_lt(
                            prior[b as int]@.eta,
                            prior[j]@.eta,
                        )
                },
                None => forall|j: int|
                    0 <= j < idx ==> !(#[trigger] prior[j])@.can_allocate(line@),
            },
        decreases n - idx,
    {
        if batches[idx].can_allocate(&line) {
            match best {
                None => {
                    best = Some(idx);
                },
                Some(b) => {
                    if eta_precedes(batches[idx].eta, batches[b].eta) {
                        best = Some(idx);
                    }
                },
            }
        }
        idx = idx + 1;
    }
    match best {
        Some(b) => {
            let reference = batches[b].reference.clone();
            batches[b].allocate(line);
            Ok(reference)
        },
        None => Err(Error::OutOfStock(line.sku.clone())),
    }
}

/// The allocation service's outcome as a single two-variant response,
/// for callers that prefer it over `Result`: the reference of the batch
/// that took the line, or the SKU that could not be satisfied.
#[derive(Debug, PartialEq)]
pub enum Response {
    Allocated(String),
    OutOfStock(String),
}

impl Response {
    /// Shape an [`allocate`] result into a [`Response`].
    pub fn of(result: Result<String, Error>) -> (response: Response)
        ensures
            match result {
                Ok(reference) => response == Response::Allocated(reference),
                Err(Error::OutOfStock(sku)) => response == Response::OutOfStock(sku),
            },
    {
        match result {
            Ok(reference) => Response::Allocated(reference),
            Err(Error::OutOfStock(sku)) => Response::OutOfStock(sku),
        }
    }
}

/// Availability arithmetic: a well-formed batch's available quantity is
/// its purchased quantity less the allocated total, and that value never
/// leaves `[0, purchased_quantity]`.
pub proof fn lemma_available_quantity_in_range(batch: BatchView)
    requires
        batch.wf(),
    ensures
        batch.available_quantity() == batch.purchased_quantity - sum_qty(batch.allocations),
        0 <= batch.available_quantity() <= batch.purchased_quantity,
{
    lemma_sum_qty_nonneg(batch.allocations);
}

/// Idempotence: allocating the identical line twice leaves the batch —
/// and so its available quantity — exactly as after the first call.
pub proof fn lemma_allocate_idempotent(batch: BatchView, line: OrderLineView)
    ensures
        batch.allocate(line).allocate(line) == batch.allocate(line),
        batch.allocate(line).allocate(line).available_quantity() == batch.allocate(
            line,
        ).available_quantity(),
{
    let once = batch.allocate(line);
    if batch.can_allocate(line) && !batch.contains_line(line) {
        assert(once.allocations[batch.allocations.len() as int] == line);
        assert(once.contains_line(line));
    }
}

/// Deallocation safety: removing a line that was never allocated to the
/// batch changes nothing, in particular not the available quantity.
pub proof fn lemma_deallocate_unallocated(batch: BatchView, line: OrderLineView)
    requires
        !batch.contains_line(line),
    ensures
        batch.deallocate(line) == batch,
        batch.deallocate(line).available_quantity() == batch.available_quantity(),
{
    batch.allocations.index_of_first_ensures(line);
}

/// SKU gate: a batch can never take a line of another SKU, regardless of
/// the quantities involved.
pub proof fn lemma_sku_gate(batch: BatchView, line: OrderLineView)
    requires
        line.sku != batch.sku,
    ensures
        !batch.can_allocate(line),
{
}

/// A successful fresh allocation reduces the available quantity by
/// exactly the line's quantity, as the batch state machine prescribes.
pub proof fn lemma_allocate_reduces_available(batch: BatchView, line: OrderLineView)
    requires
        batch.can_allocate(line),
        !batch.contains_line(line),
    ensures
        batch.allocate(line).available_quantity() == batch.available_quantity() - line.qty,
{
    lemma_sum_qty_push(batch.allocations, line);
}

/// Deallocating a line that is allocated restores its quantity to the
/// batch's available quantity.
pub proof fn lemma_deallocate_restores_available(batch: BatchView, line: OrderLineView)
    requires
        batch.wf(),
        batch.contains_line(line),
    ensures
        batch.deallocate(line).available_quantity() == batch.available_quantity() + line.qty,
{
    batch.allocations.index_of_first_ensures(line);
    let i = batch.allocations.index_of_first(line)->Some_0;
    lemma_sum_qty_remove(batch.allocations, i);
}

} // verus!
