//! Capacity-bounded buffers.
//!
//! A buffer keeps two counters that are deliberately independent: a saturating
//! slot count (`num_items`, never below zero nor above `capacity`), and a
//! named-item ledger mapping item identities to non-negative quantities.

use vstd::prelude::*;
use vstd::pervasive::VecAdditionalExecFns;
use crate::errors::LineError;
use crate::item::Item;
use crate::random::fresh_id;

verus! {

/// The mathematical model of a buffer.
#[verifier::ext_equal]
pub struct BufferView {
    pub id: u128,
    pub name: Option<Seq<char>>,
    pub capacity: usize,
    pub num_items: usize,
    pub throughput: Option<u64>,
    pub items: Seq<(u128, i64)>,
}

/// A capacity-bounded item counter with a per-item-identity quantity ledger.
pub struct Buffer {
    pub id: u128,
    pub name: Option<String>,
    pub capacity: usize,
    pub num_items: usize,
    pub throughput: Option<u64>,
    pub items: Vec<(u128, i64)>,
}

impl View for Buffer {
    type V = BufferView;

    open spec fn view(&self) -> BufferView {
        BufferView {
            id: self.id,
            name: self.name.deep_view(),
            capacity: self.capacity,
            num_items: self.num_items,
            throughput: self.throughput,
            items: self.items@,
        }
    }
}

/// First ledger entry at or after position `k` whose identity is `item_id`.
pub open spec fn ledger_find_from(items: Seq<(u128, i64)>, item_id: u128, k: int) -> Option<int>
    decreases items.len() - k,
{
    if k < 0 || k >= items.len() {
        None
    } else if items[k].0 == item_id {
        Some(k)
    } else {
        ledger_find_from(items, item_id, k + 1)
    }
}

/// Position of the first ledger entry for `item_id`, if any.
pub open spec fn ledger_find(items: Seq<(u128, i64)>, item_id: u128) -> Option<int> {
    ledger_find_from(items, item_id, 0)
}

/// The quantity stored for `item_id`; an absent entry counts as zero.
pub open spec fn ledger_qty(items: Seq<(u128, i64)>, item_id: u128) -> int {
    match ledger_find(items, item_id) {
        Some(k) => items[k].1 as int,
        None => 0,
    }
}

/// Whether changing `item_id` by `delta` is accepted: the resulting quantity
/// may not drop below zero.
pub open spec fn change_accepted(items: Seq<(u128, i64)>, item_id: u128, delta: int) -> bool {
    ledger_qty(items, item_id) + delta >= 0
}

/// The ledger after a change of `item_id` by `delta`: updated in place when
/// the item is present, appended when absent, unchanged when rejected.
pub open spec fn ledger_after_change(items: Seq<(u128, i64)>, item_id: u128, delta: int) -> Seq<
    (u128, i64),
> {
    if !change_accepted(items, item_id, delta) {
        items
    } else {
        match ledger_find(items, item_id) {
            Some(k) => items.update(k, (item_id, (items[k].1 + delta) as i64)),
            None => items.push((item_id, delta as i64)),
        }
    }
}

/// One slot-count operation: `true` is `add_item`, `false` is `remove_item`.
pub open spec fn counter_after(count: int, capacity: int, op: bool) -> int {
    if op {
        if count < capacity {
            count + 1
        } else {
            count
        }
    } else {
        if count > 0 {
            count - 1
        } else {
            count
        }
    }
}

/// The slot count after a whole sequence of add/remove operations.
pub open spec fn counter_after_ops(count: int, capacity: int, ops: Seq<bool>) -> int
    decreases ops.len(),
{
    if ops.len() == 0 {
        count
    } else {
        counter_after(counter_after_ops(count, capacity, ops.drop_last()), capacity, ops.last())
    }
}

/// Law: under any sequence of `add_item` / `remove_item` operations the slot
/// count stays within `[0, capacity]`.
pub proof fn lemma_counter_stays_bounded(count: int, capacity: int, ops: Seq<bool>)
    requires
        0 <= count <= capacity,
    ensures
        0 <= counter_after_ops(count, capacity, ops) <= capacity,
    decreases ops.len(),
{
    if ops.len() > 0 {
        lemma_counter_stays_bounded(count, capacity, ops.drop_last());
    }
}

impl Buffer {
    /// Validity: the slot count respects the capacity and every ledger
    /// quantity is non-negative.
    pub open spec fn wf(self) -> bool {
        &&& self.num_items <= self.capacity
        &&& forall|k: int|
            0 <= k < self.items@.len() ==> (#[trigger] self.items@[k]).1 >= 0
    }

    /// Creates an empty buffer with a fresh random identity.
    pub fn new(capacity: usize, throughput: Option<u64>, name: Option<String>) -> (b: Buffer)
        ensures
            b.wf(),
            b@.name == name.deep_view(),
            b@.capacity == capacity,
            b@.num_items == 0,
            b@.throughput == throughput,
            b@.items == Seq::<(u128, i64)>::empty(),
    {
        Buffer { id: fresh_id(), name, capacity, num_items: 0, throughput, items: Vec::new() }
    }

    /// Increments the slot count unless the buffer is full; saturating, never
    /// an error.
    pub fn add_item(&mut self)
        requires
            old(self).wf(),
        ensures
            final(self).wf(),
            final(self)@ == (BufferView {
                num_items: counter_after(
                    old(self)@.num_items as int,
                    old(self)@.capacity as int,
                    true,
                ) as usize,
                ..old(self)@
            }),
    {
        if self.num_items < self.capacity {
            self.num_items = self.num_items + 1;
        }
    }

    /// Decrements the slot count unless the buffer is empty; saturating,
    /// never an error.
    pub fn remove_item(&mut self)
        requires
            old(self).wf(),
        ensures
            final(self).wf(),
            final(self)@ == (BufferView {
                num_items: counter_after(
                    old(self)@.num_items as int,
                    old(self)@.capacity as int,
                    false,
                ) as usize,
                ..old(self)@
            }),
    {
        if self.num_items > 0 {
            self.num_items = self.num_items - 1;
        }
    }

    /// Whether the slot count has reached the capacity.
    pub fn is_full(&self) -> (r: bool)
        ensures
            r == (self@.num_items == self@.capacity),
    {
        self.num_items == self.capacity
    }

    /// Whether the slot count is zero.
    pub fn is_empty(&self) -> (r: bool)
        ensures
            r == (self@.num_items == 0),
    {
        self.num_items == 0
    }

    /// The current slot count.
    pub fn num_items(&self) -> (r: usize)
        ensures
            r == self@.num_items,
    {
        self.num_items
    }

    /// Sets the throughput rate.
    pub fn set_throughput(&mut self, throughput: u64)
        requires
            old(self).wf(),
        ensures
            final(self).wf(),
            final(self)@ == (BufferView { throughput: Some(throughput), ..old(self)@ }),
    {
        self.throughput = Some(throughput);
    }

    /// The throughput rate, if one was set.
    pub fn get_throughput(&self) -> (r: Option<u64>)
        ensures
            r == self@.throughput,
    {
        self.throughput
    }

    /// Renames the buffer.
    pub fn change_name(&mut self, name: String)
        requires
            old(self).wf(),
        ensures
            final(self).wf(),
            final(self)@ == (BufferView { name: Some(name@), ..old(self)@ }),
    {
        self.name = Some(name);
    }

    /// The quantity stored in the ledger for `item_id`, if an entry exists.
    pub fn get_item_quantity(&self, item_id: u128) -> (r: Option<i64>)
        ensures
            r == (match ledger_find(self@.items, item_id) {
                Some(k) => Some(self@.items[k].1),
                None => None::<i64>,
            }),
    {
        let n = self.items.len();
        let mut k: usize = 0;
        while k < n
            invariant
                n == self.items@.len(),
                k <= n,
                ledger_find(self@.items, item_id) == ledger_find_from(
                    self@.items,
                    item_id,
                    k as int,
                ),
            decreases n - k,
        {
            if self.items[k].0 == item_id {
                return Some(self.items[k].1);
            }
            k = k + 1;
        }
        None
    }

    /// Adds `delta` (possibly negative) to the ledger quantity of `item`,
    /// inserting the entry when absent. A change whose net effect would be a
    /// negative quantity is rejected: the ledger is left unchanged and
    /// `NegativeQuantityError` is returned.
    pub fn change_item_quantity(&mut self, item: &Item, delta: i64) -> (r: Result<(), LineError>)
        requires
            old(self).wf(),
            ledger_qty(old(self)@.items, item.id) + delta <= i64::MAX,
        ensures
            final(self).wf(),
            final(self)@ == (BufferView {
                items: ledger_after_change(old(self)@.items, item.id, delta as int),
                ..old(self)@
            }),
            r == (if change_accepted(old(self)@.items, item.id, delta as int) {
                Result::<(), LineError>::Ok(())
            } else {
                Result::<(), LineError>::Err(LineError::NegativeQuantityError)
            }),
    {
        let n = self.items.len();
        let mut k: usize = 0;
        while k < n
            invariant
                old(self).wf(),
                *self == *old(self),
                n == self.items@.len(),
                k <= n,
                ledger_find(self@.items, item.id) == ledger_find_from(
                    self@.items,
                    item.id,
                    k as int,
                ),
                ledger_qty(old(self)@.items, item.id) + delta <= i64::MAX,
            decreases n - k,
        {
            if self.items[k].0 == item.id {
                let q = self.items[k].1;
                let sum: i128 = q as i128 + delta as i128;
                if sum < 0 {
                    return Err(LineError::NegativeQuantityError);
                } else {
                    self.items.set(k, (item.id, sum as i64));
                    assert(self@ =~= (BufferView {
                        items: ledger_after_change(old(self)@.items, item.id, delta as int),
                        ..old(self)@
                    }));
                    return Ok(());
                }
            }
            k = k + 1;
        }
        if delta < 0 {
            Err(LineError::NegativeQuantityError)
        } else {
            self.items.push((item.id, delta));
            assert(self@ =~= (BufferView {
                items: ledger_after_change(old(self)@.items, item.id, delta as int),
                ..old(self)@
            }));
            Ok(())
        }
    }
}

/// The views of a whole buffer table.
pub open spec fn buffer_views(bufs: Seq<Buffer>) -> Seq<BufferView> {
    bufs.map_values(|b: Buffer| b@)
}

/// Validity of a whole buffer table.
pub open spec fn buffers_wf(bufs: Seq<Buffer>) -> bool {
    forall|k: int| 0 <= k < bufs.len() ==> (#[trigger] bufs[k]).wf()
}

/// First buffer at or after position `k` whose identity is `id`.
pub open spec fn buffer_find_from(bufs: Seq<BufferView>, id: u128, k: int) -> Option<int>
    decreases bufs.len() - k,
{
    if k < 0 || k >= bufs.len() {
        None
    } else if bufs[k].id == id {
        Some(k)
    } else {
        buffer_find_from(bufs, id, k + 1)
    }
}

/// Position of the first buffer with identity `id`, if any.
pub open spec fn buffer_find(bufs: Seq<BufferView>, id: u128) -> Option<int> {
    buffer_find_from(bufs, id, 0)
}

/// Position of the first buffer in the table whose identity is `id`.
pub fn find_buffer_index(buffers: &Vec<Buffer>, id: u128) -> (r: Option<usize>)
    ensures
        (match buffer_find(buffer_views(buffers@), id) {
            Some(k) => {
                &&& 0 <= k < buffers@.len()
                &&& r is Some
                &&& r->0 as int == k
                &&& buffers@[k].id == id
            },
            None => r is None,
        }),
{
    let n = buffers.len();
    let mut k: usize = 0;
    while k < n
        invariant
            n == buffers@.len(),
            k <= n,
            buffer_find(buffer_views(buffers@), id) == buffer_find_from(
                buffer_views(buffers@),
                id,
                k as int,
            ),
        decreases n - k,
    {
        if buffers[k].id == id {
            return Some(k);
        }
        k = k + 1;
    }
    None
}

/// A mutation request accepted by the buffer coordinator.
pub enum BufferEvent {
    /// Change the ledger quantity of `item` in the buffer with identity
    /// `buffer_id` by `quantity`.
    ChangeItem { buffer_id: u128, item: Item, quantity: i64 },
    /// Create a new buffer and append it to the table.
    CreateBuffer { capacity: usize, throughput: Option<u64>, name: Option<String> },
    /// Remove the buffer with identity `id` from the table.
    DestroyBuffer { id: u128 },
}

/// The buffer table after one accepted ledger change against buffer
/// `buffer_id`; a table without that buffer is left unchanged.
pub open spec fn views_after_change(
    bufs: Seq<BufferView>,
    buffer_id: u128,
    item_id: u128,
    delta: int,
) -> Seq<BufferView> {
    match buffer_find(bufs, buffer_id) {
        Some(b) => bufs.update(
            b,
            (BufferView { items: ledger_after_change(bufs[b].items, item_id, delta), ..bufs[b] }),
        ),
        None => bufs,
    }
}

/// Applies one buffer coordinator request against the shared buffer table.
/// Requests are applied one at a time, in the order they were dequeued; a
/// failed lookup or a rejected mutation leaves the table unchanged and the
/// error is returned, never swallowed.
pub fn apply_buffer_event(buffers: &mut Vec<Buffer>, event: BufferEvent) -> (r: Result<
    (),
    LineError,
>)
    requires
        buffers_wf(old(buffers)@),
        (match event {
            BufferEvent::ChangeItem { buffer_id, item, quantity } => match buffer_find(
                buffer_views(old(buffers)@),
                buffer_id,
            ) {
                Some(b) => ledger_qty(buffer_views(old(buffers)@)[b].items, item.id) + quantity
                    <= i64::MAX,
                None => true,
            },
            _ => true,
        }),
    ensures
        buffers_wf(final(buffers)@),
        (match event {
            BufferEvent::ChangeItem { buffer_id, item, quantity } => {
                &&& buffer_views(final(buffers)@) == views_after_change(
                    buffer_views(old(buffers)@),
                    buffer_id,
                    item.id,
                    quantity as int,
                )
                &&& r == (match buffer_find(buffer_views(old(buffers)@), buffer_id) {
                    Some(b) => if change_accepted(
                        buffer_views(old(buffers)@)[b].items,
                        item.id,
                        quantity as int,
                    ) {
                        Result::<(), LineError>::Ok(())
                    } else {
                        Result::<(), LineError>::Err(LineError::NegativeQuantityError)
                    },
                    None => Result::<(), LineError>::Err(LineError::BufferNotFoundError),
                })
            },
            BufferEvent::CreateBuffer { capacity, throughput, name } => {
                &&& final(buffers)@.len() == old(buffers)@.len() + 1
                &&& forall|k: int|
                    0 <= k < old(buffers)@.len() ==> final(buffers)@[k] == old(buffers)@[k]
                &&& final(buffers)@.last()@ == (BufferView {
                    id: final(buffers)@.last()@.id,
                    name: name.deep_view(),
                    capacity: capacity,
                    num_items: 0,
                    throughput: throughput,
                    items: Seq::<(u128, i64)>::empty(),
                })
                &&& r is Ok
            },
            BufferEvent::DestroyBuffer { id } => {
                match buffer_find(buffer_views(old(buffers)@), id) {
                    Some(b) => {
                        &&& final(buffers)@ == old(buffers)@.remove(b)
                        &&& r is Ok
                    },
                    None => {
                        &&& final(buffers)@ == old(buffers)@
                        &&& r == Result::<(), LineError>::Err(LineError::BufferNotFoundError)
                    },
                }
            },
        }),
{
    match event {
        BufferEvent::ChangeItem { buffer_id, item, quantity } => {
            match find_buffer_index(buffers, buffer_id) {
                Some(b) => {
                    proof {
                        assert(buffer_views(old(buffers)@)[b as int] == old(buffers)@[b as int]@);
                    }
                    let mut taken = placeholder_buffer();
                    buffers.set_and_swap(b, &mut taken);
                    let r = taken.change_item_quantity(&item, quantity);
                    buffers.set_and_swap(b, &mut taken);
                    assert(buffer_views(buffers@) =~= views_after_change(
                        buffer_views(old(buffers)@),
                        buffer_id,
                        item.id,
                        quantity as int,
                    ));
                    r
                },
                None => {
                    assert(buffer_views(buffers@) =~= views_after_change(
                        buffer_views(old(buffers)@),
                        buffer_id,
                        item.id,
                        quantity as int,
                    ));
                    Err(LineError::BufferNotFoundError)
                },
            }
        },
        BufferEvent::CreateBuffer { capacity, throughput, name } => {
            let b = Buffer::new(capacity, throughput, name);
            buffers.push(b);
            Ok(())
        },
        BufferEvent::DestroyBuffer { id } => {
            match find_buffer_index(buffers, id) {
                Some(b) => {
                    buffers.remove(b);
                    Ok(())
                },
                None => Err(LineError::BufferNotFoundError),
            }
        },
    }
}

/// A throwaway buffer used to swap a real one out of the table while it is
/// mutated.
pub(crate) fn placeholder_buffer() -> (b: Buffer)
    ensures
        b.wf(),
{
    Buffer { id: 0, name: None, capacity: 0, num_items: 0, throughput: None, items: Vec::new() }
}

/// The buffer table after `n` unit increments of `item_id` against the buffer
/// with identity `buffer_id`, applied one at a time as the coordinator
/// serializes them.
pub open spec fn views_after_increments(
    bufs: Seq<BufferView>,
    buffer_id: u128,
    item_id: u128,
    n: nat,
) -> Seq<BufferView>
    decreases n,
{
    if n == 0 {
        bufs
    } else {
        views_after_change(
            views_after_increments(bufs, buffer_id, item_id, (n - 1) as nat),
            buffer_id,
            item_id,
            1,
        )
    }
}

/// A ledger lookup is unchanged by updating an entry to one with the same
/// identity.
proof fn lemma_ledger_find_update(items: Seq<(u128, i64)>, id: u128, p: int, v: (u128, i64), j: int)
    requires
        0 <= p < items.len(),
        v.0 == items[p].0,
    ensures
        ledger_find_from(items.update(p, v), id, j) == ledger_find_from(items, id, j),
    decreases items.len() - j,
{
    if 0 <= j < items.len() {
        lemma_ledger_find_update(items, id, p, v, j + 1);
    }
}

/// When no entry for `id` exists, appending one makes it the first match.
proof fn lemma_ledger_find_push(items: Seq<(u128, i64)>, id: u128, v: (u128, i64), j: int)
    requires
        ledger_find_from(items, id, j) is None,
        v.0 == id,
        0 <= j <= items.len(),
    ensures
        ledger_find_from(items.push(v), id, j) == Some(items.len() as int),
    decreases items.len() - j,
{
    if j < items.len() {
        lemma_ledger_find_push(items, id, v, j + 1);
    }
}

/// An accepted change of `delta` moves the stored quantity by exactly `delta`.
pub proof fn lemma_ledger_change_qty(items: Seq<(u128, i64)>, item_id: u128, delta: int)
    requires
        change_accepted(items, item_id, delta),
        ledger_qty(items, item_id) + delta <= i64::MAX,
    ensures
        ledger_qty(ledger_after_change(items, item_id, delta), item_id) == ledger_qty(
            items,
            item_id,
        ) + delta,
{
    match ledger_find(items, item_id) {
        Some(k) => {
            let v = (item_id, (items[k].1 + delta) as i64);
            lemma_ledger_find_from_match(items, item_id, 0);
            lemma_ledger_find_update(items, item_id, k, v, 0);
        },
        None => {
            lemma_ledger_find_push(items, item_id, (item_id, delta as i64), 0);
        },
    }
}

/// A successful ledger lookup lands on an entry with the looked-up identity.
proof fn lemma_ledger_find_from_match(items: Seq<(u128, i64)>, id: u128, j: int)
    requires
        ledger_find_from(items, id, j) is Some,
    ensures
        ({
            let k = ledger_find_from(items, id, j)->0;
            &&& j <= k < items.len()
            &&& items[k].0 == id
        }),
    decreases items.len() - j,
{
    if 0 <= j < items.len() && items[j].0 != id {
        lemma_ledger_find_from_match(items, id, j + 1);
    }
}

/// A buffer lookup is unchanged by updating a buffer to one with the same
/// identity.
proof fn lemma_buffer_find_update(
    bufs: Seq<BufferView>,
    id: u128,
    p: int,
    v: BufferView,
    j: int,
)
    requires
        0 <= p < bufs.len(),
        v.id == bufs[p].id,
    ensures
        buffer_find_from(bufs.update(p, v), id, j) == buffer_find_from(bufs, id, j),
    decreases bufs.len() - j,
{
    if 0 <= j < bufs.len() {
        lemma_buffer_find_update(bufs, id, p, v, j + 1);
    }
}

/// Law: `n` unit increments of one item, serialized through the buffer
/// coordinator against a table that holds the target buffer, raise that
/// buffer's stored quantity by exactly `n` — no update is lost — and leave
/// the table's shape and every other buffer unchanged.
pub proof fn lemma_increments_accumulate(
    bufs: Seq<BufferView>,
    buffer_id: u128,
    item_id: u128,
    n: nat,
)
    requires
        buffer_find(bufs, buffer_id) is Some,
        ledger_qty(bufs[buffer_find(bufs, buffer_id)->0].items, item_id) >= 0,
        ledger_qty(bufs[buffer_find(bufs, buffer_id)->0].items, item_id) + n <= i64::MAX,
    ensures
        ({
            let b = buffer_find(bufs, buffer_id)->0;
            let after = views_after_increments(bufs, buffer_id, item_id, n);
            &&& buffer_find(after, buffer_id) == Some(b)
            &&& after.len() == bufs.len()
            &&& ledger_qty(after[b].items, item_id) == ledger_qty(bufs[b].items, item_id) + n
            &&& forall|k: int| 0 <= k < bufs.len() && k != b ==> after[k] == bufs[k]
        }),
    decreases n,
{
    let b = buffer_find(bufs, buffer_id)->0;
    lemma_buffer_find_from_match(bufs, buffer_id, 0);
    if n > 0 {
        lemma_increments_accumulate(bufs, buffer_id, item_id, (n - 1) as nat);
        let mid = views_after_increments(bufs, buffer_id, item_id, (n - 1) as nat);
        lemma_buffer_find_from_match(mid, buffer_id, 0);
        lemma_ledger_change_qty(mid[b].items, item_id, 1);
        let v = (BufferView { items: ledger_after_change(mid[b].items, item_id, 1), ..mid[b] });
        lemma_buffer_find_update(mid, buffer_id, b, v, 0);
    }
}

/// A successful buffer lookup lands on a buffer with the looked-up identity.
proof fn lemma_buffer_find_from_match(bufs: Seq<BufferView>, id: u128, j: int)
    requires
        buffer_find_from(bufs, id, j) is Some,
    ensures
        ({
            let k = buffer_find_from(bufs, id, j)->0;
            &&& j <= k < bufs.len()
            &&& bufs[k].id == id
        }),
    decreases bufs.len() - j,
{
    if 0 <= j < bufs.len() && bufs[j].id != id {
        lemma_buffer_find_from_match(bufs, id, j + 1);
    }
}

} // verus!
