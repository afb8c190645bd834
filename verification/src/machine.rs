//! Machines: each owns one probabilistic state chain that models its
//! operational status, and references shared buffers by identity in a buffer
//! table. The fixed state-to-behavior binding is: a machine whose current
//! state shows the name "Working" moves one item from the first available
//! (non-empty) input buffer and one item into the first available (non-full)
//! output buffer; any other state moves nothing.

use vstd::prelude::*;
use vstd::pervasive::VecAdditionalExecFns;
use crate::buffer::{
    Buffer, BufferView, buffer_find, buffer_views, buffers_wf, change_accepted, find_buffer_index,
    ledger_qty, views_after_change,
};
use crate::errors::LineError;
use crate::item::Item;
use crate::markov::{MarkovChain, PROB_ONE, default_machine_chain};
use crate::random::{draw_below, fresh_id};

verus! {

/// A machine: one chain for its status, a processing time, an item counter,
/// and the identities of its input and output buffers.
pub struct Machine {
    pub id: u128,
    pub markov_chain: MarkovChain,
    pub processing_time: u64,
    pub num_items: usize,
    pub output_name: Option<String>,
    pub input_buffer: Vec<u128>,
    pub output_buffer: Vec<u128>,
    pub current_state: usize,
}

/// First identity at or after position `k` in a list of buffer identities.
pub open spec fn id_find_from(ids: Seq<u128>, id: u128, k: int) -> Option<int>
    decreases ids.len() - k,
{
    if k < 0 || k >= ids.len() {
        None
    } else if ids[k] == id {
        Some(k)
    } else {
        id_find_from(ids, id, k + 1)
    }
}

/// Position of the first machine with identity `id`, if any.
pub open spec fn machine_find_from(ms: Seq<Machine>, id: u128, k: int) -> Option<int>
    decreases ms.len() - k,
{
    if k < 0 || k >= ms.len() {
        None
    } else if ms[k].id == id {
        Some(k)
    } else {
        machine_find_from(ms, id, k + 1)
    }
}

/// Position of the first machine with identity `id`.
pub open spec fn machine_find(ms: Seq<Machine>, id: u128) -> Option<int> {
    machine_find_from(ms, id, 0)
}

/// Validity of a whole machine table.
pub open spec fn machines_wf(ms: Seq<Machine>) -> bool {
    forall|k: int| 0 <= k < ms.len() ==> (#[trigger] ms[k]).wf()
}

/// The result of forwarding a ledger change through a machine: the buffer
/// must be attached as an output and present in the table, and the change
/// itself must not drive the quantity negative.
pub open spec fn change_result(
    attached: bool,
    bufs: Seq<BufferView>,
    buffer_id: u128,
    item_id: u128,
    delta: int,
) -> Result<(), LineError> {
    if !attached {
        Err(LineError::BufferNotFoundError)
    } else {
        match buffer_find(bufs, buffer_id) {
            None => Err(LineError::BufferNotFoundError),
            Some(b) => if change_accepted(bufs[b].items, item_id, delta) {
                Ok(())
            } else {
                Err(LineError::NegativeQuantityError)
            },
        }
    }
}

/// The buffer table after forwarding a ledger change through a machine.
pub open spec fn change_effect(
    attached: bool,
    bufs: Seq<BufferView>,
    buffer_id: u128,
    item_id: u128,
    delta: int,
) -> Seq<BufferView> {
    if attached {
        views_after_change(bufs, buffer_id, item_id, delta)
    } else {
        bufs
    }
}

/// Whether the identity list holds `id`.
fn contains_id(ids: &Vec<u128>, id: u128) -> (r: bool)
    ensures
        r == ids@.contains(id),
{
    let n = ids.len();
    let mut k: usize = 0;
    while k < n
        invariant
            n == ids@.len(),
            k <= n,
            forall|p: int| 0 <= p < k ==> ids@[p] != id,
        decreases n - k,
    {
        if ids[k] == id {
            proof {
                assert(ids@[k as int] == id);
            }
            return true;
        }
        k = k + 1;
    }
    false
}

impl Machine {
    /// Validity: the chain is valid and the current state indexes it (a
    /// machine with an empty chain has no state to point at).
    pub open spec fn wf(self) -> bool {
        &&& self.markov_chain.wf()
        &&& self.markov_chain.states@.len() > 0 ==> (self.current_state as int)
            < self.markov_chain.states@.len()
    }

    /// All fields of the two machines agree except possibly `current_state`.
    pub open spec fn same_but_state(pre: Machine, post: Machine) -> bool {
        &&& post.id == pre.id
        &&& post.markov_chain == pre.markov_chain
        &&& post.processing_time == pre.processing_time
        &&& post.num_items == pre.num_items
        &&& post.output_name == pre.output_name
        &&& post.input_buffer@ == pre.input_buffer@
        &&& post.output_buffer@ == pre.output_buffer@
    }

    /// Creates a machine around the given chain, starting at state 0, with a
    /// fresh random identity and no attached buffers.
    pub fn new(markov_chain: MarkovChain, processing_time: u64, output: Option<String>) -> (m:
        Machine)
        requires
            markov_chain.wf(),
        ensures
            m.wf(),
            m.markov_chain == markov_chain,
            m.processing_time == processing_time,
            m.num_items == 0,
            m.output_name == output,
            m.input_buffer@ == Seq::<u128>::empty(),
            m.output_buffer@ == Seq::<u128>::empty(),
            m.current_state == 0,
    {
        let m = Machine {
            id: fresh_id(),
            markov_chain,
            processing_time,
            num_items: 0,
            output_name: output,
            input_buffer: Vec::new(),
            output_buffer: Vec::new(),
            current_state: 0,
        };
        proof {
            assert(m.input_buffer@ =~= Seq::<u128>::empty());
            assert(m.output_buffer@ =~= Seq::<u128>::empty());
        }
        m
    }

    /// Creates a machine with the pre-built three-state chain — "Idle",
    /// "Working", "Broken", a one-percent chance of breaking per tick —
    /// starting at "Idle". The name is accepted for interface symmetry.
    pub fn new_default_machine(name: String, processing_time: u64) -> (m: Machine)
        ensures
            m.wf(),
            m.markov_chain.states@.len() == 3,
            m.markov_chain.states@[0].name@ == "Idle"@,
            m.markov_chain.states@[1].name@ == "Working"@,
            m.markov_chain.states@[2].name@ == "Broken"@,
            m.markov_chain.spec_successors(0) == seq![2usize, 1usize],
            m.markov_chain.spec_successors(1) == seq![0usize, 2usize],
            m.markov_chain.spec_successors(2) == seq![1usize, 0usize],
            m.markov_chain.spec_edge_prob(0, 1) == 990_000_000u64,
            m.markov_chain.spec_edge_prob(0, 2) == 10_000_000u64,
            m.markov_chain.spec_edge_prob(1, 2) == 10_000_000u64,
            m.markov_chain.spec_edge_prob(1, 0) == 990_000_000u64,
            m.markov_chain.spec_edge_prob(2, 0) == 500_000_000u64,
            m.markov_chain.spec_edge_prob(2, 1) == 500_000_000u64,
            !m.markov_chain.spec_has_edge(0, 0),
            !m.markov_chain.spec_has_edge(1, 1),
            !m.markov_chain.spec_has_edge(2, 2),
            m.current_state == 0,
            m.processing_time == processing_time,
            m.num_items == 0,
            m.output_name is None,
            m.input_buffer@ == Seq::<u128>::empty(),
            m.output_buffer@ == Seq::<u128>::empty(),
    {
        let _ = name;
        let markov_chain = default_machine_chain();
        Machine::new(markov_chain, processing_time, None)
    }

    /// Creates a fresh buffer in the shared table and attaches it as an
    /// input of this machine.
    pub fn create_and_add_input_buffer(
        &mut self,
        buffers: &mut Vec<Buffer>,
        capacity: usize,
        throughput: Option<u64>,
    )
        requires
            old(self).wf(),
            buffers_wf(old(buffers)@),
        ensures
            final(self).wf(),
            buffers_wf(final(buffers)@),
            final(buffers)@.len() == old(buffers)@.len() + 1,
            forall|k: int|
                0 <= k < old(buffers)@.len() ==> final(buffers)@[k] == old(buffers)@[k],
            final(buffers)@.last()@.capacity == capacity,
            final(buffers)@.last()@.num_items == 0,
            final(buffers)@.last()@.throughput == throughput,
            final(buffers)@.last()@.items == Seq::<(u128, i64)>::empty(),
            Machine::same_but_input(*old(self), *final(self)),
            final(self).input_buffer@ == (if old(self).input_buffer@.contains(
                final(buffers)@.last().id,
            ) {
                old(self).input_buffer@
            } else {
                old(self).input_buffer@.push(final(buffers)@.last().id)
            }),
    {
        let b = Buffer::new(capacity, throughput, None);
        let id: u128 = b.id;
        buffers.push(b);
        self.add_input_buffer(id);
    }

    /// Creates a fresh buffer named after this machine's output in the shared
    /// table and attaches it as an output of this machine.
    pub fn create_and_add_output_buffer(
        &mut self,
        buffers: &mut Vec<Buffer>,
        capacity: usize,
        throughput: Option<u64>,
    )
        requires
            old(self).wf(),
            buffers_wf(old(buffers)@),
        ensures
            final(self).wf(),
            buffers_wf(final(buffers)@),
            final(buffers)@.len() == old(buffers)@.len() + 1,
            forall|k: int|
                0 <= k < old(buffers)@.len() ==> final(buffers)@[k] == old(buffers)@[k],
            final(buffers)@.last()@.capacity == capacity,
            final(buffers)@.last()@.num_items == 0,
            final(buffers)@.last()@.throughput == throughput,
            final(buffers)@.last()@.items == Seq::<(u128, i64)>::empty(),
            final(buffers)@.last()@.name == old(self).output_name.deep_view(),
            Machine::same_but_output(*old(self), *final(self)),
            final(self).output_buffer@ == old(self).output_buffer@.push(final(buffers)@.last().id),
    {
        let name = match &self.output_name {
            Some(s) => Some(s.clone()),
            None => None,
        };
        proof {
            assert(name.deep_view() == self.output_name.deep_view());
        }
        let b = Buffer::new(capacity, throughput, name);
        let id: u128 = b.id;
        buffers.push(b);
        self.add_output_buffer(id);
    }

    /// All fields agree except possibly the input-buffer list.
    pub open spec fn same_but_input(pre: Machine, post: Machine) -> bool {
        &&& post.id == pre.id
        &&& post.markov_chain == pre.markov_chain
        &&& post.processing_time == pre.processing_time
        &&& post.num_items == pre.num_items
        &&& post.output_name == pre.output_name
        &&& post.output_buffer@ == pre.output_buffer@
        &&& post.current_state == pre.current_state
    }

    /// All fields agree except possibly the output-buffer list.
    pub open spec fn same_but_output(pre: Machine, post: Machine) -> bool {
        &&& post.id == pre.id
        &&& post.markov_chain == pre.markov_chain
        &&& post.processing_time == pre.processing_time
        &&& post.num_items == pre.num_items
        &&& post.output_name == pre.output_name
        &&& post.input_buffer@ == pre.input_buffer@
        &&& post.current_state == pre.current_state
    }

    /// Attaches a buffer identity as an input; idempotent by identity — an
    /// identity already attached is left where it stands.
    pub fn add_input_buffer(&mut self, buffer_id: u128)
        requires
            old(self).wf(),
        ensures
            final(self).wf(),
            Machine::same_but_input(*old(self), *final(self)),
            final(self).input_buffer@ == (if old(self).input_buffer@.contains(buffer_id) {
                old(self).input_buffer@
            } else {
                old(self).input_buffer@.push(buffer_id)
            }),
    {
        if !contains_id(&self.input_buffer, buffer_id) {
            self.input_buffer.push(buffer_id);
        }
    }

    /// Detaches the first input entry with this identity; a no-op when the
    /// identity is absent.
    pub fn remove_input_buffer(&mut self, buffer_id: u128)
        requires
            old(self).wf(),
        ensures
            final(self).wf(),
            Machine::same_but_input(*old(self), *final(self)),
            final(self).input_buffer@ == (match id_find_from(
                old(self).input_buffer@,
                buffer_id,
                0,
            ) {
                Some(k) => old(self).input_buffer@.remove(k),
                None => old(self).input_buffer@,
            }),
    {
        let n = self.input_buffer.len();
        let mut k: usize = 0;
        while k < n
            invariant
                old(self).wf(),
                *self == *old(self),
                n == self.input_buffer@.len(),
                k <= n,
                id_find_from(self.input_buffer@, buffer_id, 0) == id_find_from(
                    self.input_buffer@,
                    buffer_id,
                    k as int,
                ),
            decreases n - k,
        {
            if self.input_buffer[k] == buffer_id {
                self.input_buffer.remove(k);
                return ;
            }
            k = k + 1;
        }
    }

    /// Attaches a buffer identity as an output; duplicates by identity are
    /// allowed, a machine may feed the same downstream buffer several times.
    pub fn add_output_buffer(&mut self, buffer_id: u128)
        requires
            old(self).wf(),
        ensures
            final(self).wf(),
            Machine::same_but_output(*old(self), *final(self)),
            final(self).output_buffer@ == old(self).output_buffer@.push(buffer_id),
    {
        self.output_buffer.push(buffer_id);
    }

    /// Detaches the first output entry with this identity; a no-op when the
    /// identity is absent.
    pub fn remove_output_buffer(&mut self, buffer_id: u128)
        requires
            old(self).wf(),
        ensures
            final(self).wf(),
            Machine::same_but_output(*old(self), *final(self)),
            final(self).output_buffer@ == (match id_find_from(
                old(self).output_buffer@,
                buffer_id,
                0,
            ) {
                Some(k) => old(self).output_buffer@.remove(k),
                None => old(self).output_buffer@,
            }),
    {
        let n = self.output_buffer.len();
        let mut k: usize = 0;
        while k < n
            invariant
                old(self).wf(),
                *self == *old(self),
                n == self.output_buffer@.len(),
                k <= n,
                id_find_from(self.output_buffer@, buffer_id, 0) == id_find_from(
                    self.output_buffer@,
                    buffer_id,
                    k as int,
                ),
            decreases n - k,
        {
            if self.output_buffer[k] == buffer_id {
                self.output_buffer.remove(k);
                return ;
            }
            k = k + 1;
        }
    }

    /// Counts one item into the machine.
    pub fn add_item(&mut self)
        requires
            old(self).wf(),
            old(self).num_items < usize::MAX,
        ensures
            final(self).wf(),
            final(self).num_items == old(self).num_items + 1,
            Machine::same_but_count(*old(self), *final(self)),
    {
        self.num_items = self.num_items + 1;
    }

    /// Counts one item out of the machine.
    pub fn remove_item(&mut self)
        requires
            old(self).wf(),
            old(self).num_items > 0,
        ensures
            final(self).wf(),
            final(self).num_items == old(self).num_items - 1,
            Machine::same_but_count(*old(self), *final(self)),
    {
        self.num_items = self.num_items - 1;
    }

    /// All fields agree except possibly the item count.
    pub open spec fn same_but_count(pre: Machine, post: Machine) -> bool {
        &&& post.id == pre.id
        &&& post.markov_chain == pre.markov_chain
        &&& post.processing_time == pre.processing_time
        &&& post.output_name == pre.output_name
        &&& post.input_buffer@ == pre.input_buffer@
        &&& post.output_buffer@ == pre.output_buffer@
        &&& post.current_state == pre.current_state
    }

    /// The machine's item count.
    pub fn num_items(&self) -> (r: usize)
        ensures
            r == self.num_items,
    {
        self.num_items
    }

    /// Sets the output name.
    pub fn set_output_name(&mut self, name: String)
        requires
            old(self).wf(),
        ensures
            final(self).wf(),
            final(self).output_name == Some(name),
            Machine::same_but_name(*old(self), *final(self)),
    {
        self.output_name = Some(name);
    }

    /// All fields agree except possibly the output name.
    pub open spec fn same_but_name(pre: Machine, post: Machine) -> bool {
        &&& post.id == pre.id
        &&& post.markov_chain == pre.markov_chain
        &&& post.processing_time == pre.processing_time
        &&& post.num_items == pre.num_items
        &&& post.input_buffer@ == pre.input_buffer@
        &&& post.output_buffer@ == pre.output_buffer@
        &&& post.current_state == pre.current_state
    }

    /// The output name, if one was set.
    pub fn get_output_name(&self) -> (r: Option<String>)
        ensures
            r.deep_view() == self.output_name.deep_view(),
    {
        match &self.output_name {
            Some(s) => Some(s.clone()),
            None => None,
        }
    }

    /// Forwards a ledger change to the attached output buffer with identity
    /// `buffer_id` in the shared table. Fails with `BufferNotFoundError` when
    /// no such output is attached or the table does not hold it, and with
    /// `NegativeQuantityError` when the change would drive the quantity below
    /// zero; a failed change leaves every buffer unchanged.
    pub fn change_items_to_buffer_by_id(
        &self,
        buffers: &mut Vec<Buffer>,
        buffer_id: u128,
        item: &Item,
        quantity: i64,
    ) -> (r: Result<(), LineError>)
        requires
            buffers_wf(old(buffers)@),
            (match buffer_find(buffer_views(old(buffers)@), buffer_id) {
                Some(b) => ledger_qty(buffer_views(old(buffers)@)[b].items, item.id) + quantity
                    <= i64::MAX,
                None => true,
            }),
        ensures
            buffers_wf(final(buffers)@),
            r == change_result(
                self.output_buffer@.contains(buffer_id),
                buffer_views(old(buffers)@),
                buffer_id,
                item.id,
                quantity as int,
            ),
            buffer_views(final(buffers)@) == change_effect(
                self.output_buffer@.contains(buffer_id),
                buffer_views(old(buffers)@),
                buffer_id,
                item.id,
                quantity as int,
            ),
    {
        let attached = contains_id(&self.output_buffer, buffer_id);
        if !attached {
            return Err(LineError::BufferNotFoundError);
        }
        match find_buffer_index(buffers, buffer_id) {
            None => Err(LineError::BufferNotFoundError),
            Some(b) => {
                proof {
                    assert(buffer_views(old(buffers)@)[b as int] == old(buffers)@[b as int]@);
                }
                let mut taken = crate::buffer::placeholder_buffer();
                buffers.set_and_swap(b, &mut taken);
                let r = taken.change_item_quantity(item, quantity);
                buffers.set_and_swap(b, &mut taken);
                proof {
                    assert(buffer_views(buffers@) =~= change_effect(
                        true,
                        buffer_views(old(buffers)@),
                        buffer_id,
                        item.id,
                        quantity as int,
                    ));
                }
                r
            },
        }
    }
}

/// The state the machine points at after one tick decided by draw `r`: a
/// machine with an empty chain stays put.
pub open spec fn machine_step_state(pre: Machine, r: u64) -> int {
    if pre.markov_chain.states@.len() == 0 {
        pre.current_state as int
    } else {
        pre.markov_chain.spec_step_target(pre.current_state as int, r as int)
    }
}

/// Whether the machine shows the name "Working" at its current state.
pub open spec fn spec_is_working(m: Machine) -> bool {
    &&& m.markov_chain.states@.len() > 0
    &&& m.markov_chain.states@[m.current_state as int].name@ == "Working"@
}

/// Whether the machine is working after a tick decided by draw `r`.
pub open spec fn working_after(pre: Machine, r: u64) -> bool {
    &&& pre.markov_chain.states@.len() > 0
    &&& pre.markov_chain.states@[machine_step_state(pre, r)].name@ == "Working"@
}

/// The table position of the first attached identity (walking `ids` from
/// `k`) that names a non-empty buffer in the table.
pub open spec fn first_nonempty(bufs: Seq<BufferView>, ids: Seq<u128>, k: int) -> Option<int>
    decreases ids.len() - k,
{
    if k < 0 || k >= ids.len() {
        None
    } else {
        match buffer_find(bufs, ids[k]) {
            Some(b) => if bufs[b].num_items > 0 {
                Some(b)
            } else {
                first_nonempty(bufs, ids, k + 1)
            },
            None => first_nonempty(bufs, ids, k + 1),
        }
    }
}

/// The table position of the first attached identity (walking `ids` from
/// `k`) that names a non-full buffer in the table.
pub open spec fn first_nonfull(bufs: Seq<BufferView>, ids: Seq<u128>, k: int) -> Option<int>
    decreases ids.len() - k,
{
    if k < 0 || k >= ids.len() {
        None
    } else {
        match buffer_find(bufs, ids[k]) {
            Some(b) => if bufs[b].num_items < bufs[b].capacity {
                Some(b)
            } else {
                first_nonfull(bufs, ids, k + 1)
            },
            None => first_nonfull(bufs, ids, k + 1),
        }
    }
}

/// A buffer view with one item fewer.
pub open spec fn dec_view(v: BufferView) -> BufferView {
    BufferView { num_items: (v.num_items - 1) as usize, ..v }
}

/// A buffer view with one item more.
pub open spec fn inc_view(v: BufferView) -> BufferView {
    BufferView { num_items: (v.num_items + 1) as usize, ..v }
}

/// The buffer table after a working machine's movement: one item leaves the
/// first available (non-empty) input buffer, if any, and one item enters the
/// first available (non-full) output buffer, if any — the output is chosen
/// against the already-updated table, so a buffer attached on both sides is
/// seen with its new count.
pub open spec fn spec_move_items(
    inputs: Seq<u128>,
    outputs: Seq<u128>,
    bufs: Seq<BufferView>,
) -> Seq<BufferView> {
    let mid = (match first_nonempty(bufs, inputs, 0) {
        Some(b) => bufs.update(b, dec_view(bufs[b])),
        None => bufs,
    });
    match first_nonfull(mid, outputs, 0) {
        Some(b) => mid.update(b, inc_view(mid[b])),
        None => mid,
    }
}

/// The buffer table after one machine tick decided by draw `r`.
pub open spec fn views_after_step(pre: Machine, bufs: Seq<BufferView>, r: u64) -> Seq<BufferView> {
    if working_after(pre, r) {
        spec_move_items(pre.input_buffer@, pre.output_buffer@, bufs)
    } else {
        bufs
    }
}

/// One machine tick decided by draw `r`: the machine redraws its current
/// state and, when the new state is "Working", moves one item through.
pub open spec fn machine_stepped_with(
    pre: Machine,
    post: Machine,
    pre_b: Seq<BufferView>,
    post_b: Seq<BufferView>,
    r: u64,
) -> bool {
    &&& Machine::same_but_state(pre, post)
    &&& post.current_state as int == machine_step_state(pre, r)
    &&& post_b == views_after_step(pre, pre_b, r)
}

/// One machine tick decided by some uniform draw.
pub open spec fn machine_stepped(
    pre: Machine,
    post: Machine,
    pre_b: Seq<BufferView>,
    post_b: Seq<BufferView>,
) -> bool {
    exists|r: u64| r < PROB_ONE && #[trigger] machine_stepped_with(pre, post, pre_b, post_b, r)
}

/// The position of the first buffer in the table that is attached by `ids`
/// and not empty.
fn find_first_nonempty(buffers: &Vec<Buffer>, ids: &Vec<u128>) -> (r: Option<usize>)
    ensures
        (match first_nonempty(buffer_views(buffers@), ids@, 0) {
            Some(b) => {
                &&& r is Some
                &&& r->0 as int == b
                &&& 0 <= b < buffers@.len()
                &&& buffers@[b].num_items > 0
            },
            None => r is None,
        }),
{
    let n = ids.len();
    let mut k: usize = 0;
    while k < n
        invariant
            n == ids@.len(),
            k <= n,
            first_nonempty(buffer_views(buffers@), ids@, 0) == first_nonempty(
                buffer_views(buffers@),
                ids@,
                k as int,
            ),
        decreases n - k,
    {
        match find_buffer_index(buffers, ids[k]) {
            Some(b) => {
                if buffers[b].num_items > 0 {
                    return Some(b);
                }
            },
            None => {},
        }
        k = k + 1;
    }
    None
}

/// The position of the first buffer in the table that is attached by `ids`
/// and not full.
fn find_first_nonfull(buffers: &Vec<Buffer>, ids: &Vec<u128>) -> (r: Option<usize>)
    ensures
        (match first_nonfull(buffer_views(buffers@), ids@, 0) {
            Some(b) => {
                &&& r is Some
                &&& r->0 as int == b
                &&& 0 <= b < buffers@.len()
                &&& buffers@[b].num_items < buffers@[b].capacity
            },
            None => r is None,
        }),
{
    let n = ids.len();
    let mut k: usize = 0;
    while k < n
        invariant
            n == ids@.len(),
            k <= n,
            first_nonfull(buffer_views(buffers@), ids@, 0) == first_nonfull(
                buffer_views(buffers@),
                ids@,
                k as int,
            ),
        decreases n - k,
    {
        match find_buffer_index(buffers, ids[k]) {
            Some(b) => {
                if buffers[b].num_items < buffers[b].capacity {
                    return Some(b);
                }
            },
            None => {},
        }
        k = k + 1;
    }
    None
}

/// Moves one item out of the first available input buffer and one item into
/// the first available output buffer, each movement conditioned on such a
/// buffer existing.
fn move_items(inputs: &Vec<u128>, outputs: &Vec<u128>, buffers: &mut Vec<Buffer>)
    requires
        buffers_wf(old(buffers)@),
    ensures
        buffers_wf(final(buffers)@),
        buffer_views(final(buffers)@) == spec_move_items(
            inputs@,
            outputs@,
            buffer_views(old(buffers)@),
        ),
{
    let ghost v0 = buffer_views(old(buffers)@);
    let ghost mid = (match first_nonempty(v0, inputs@, 0) {
        Some(b) => v0.update(b, dec_view(v0[b])),
        None => v0,
    });
    match find_first_nonempty(buffers, inputs) {
        Some(b) => {
            proof {
                assert(buffer_views(buffers@)[b as int] == buffers@[b as int]@);
            }
            let mut taken = crate::buffer::placeholder_buffer();
            buffers.set_and_swap(b, &mut taken);
            taken.remove_item();
            buffers.set_and_swap(b, &mut taken);
            proof {
                assert(buffer_views(buffers@) =~= mid);
            }
        },
        None => {
            proof {
                assert(buffer_views(buffers@) =~= mid);
            }
        },
    }
    match find_first_nonfull(buffers, outputs) {
        Some(b) => {
            proof {
                assert(buffer_views(buffers@)[b as int] == buffers@[b as int]@);
            }
            let mut taken = crate::buffer::placeholder_buffer();
            buffers.set_and_swap(b, &mut taken);
            taken.add_item();
            buffers.set_and_swap(b, &mut taken);
            proof {
                assert(buffer_views(buffers@) =~= spec_move_items(inputs@, outputs@, v0));
            }
        },
        None => {
            proof {
                assert(buffer_views(buffers@) =~= spec_move_items(inputs@, outputs@, v0));
            }
        },
    }
}

impl Machine {
    /// Whether the machine's current state shows the name "Working".
    pub fn is_working(&self) -> (r: bool)
        requires
            self.wf(),
        ensures
            r == spec_is_working(*self),
    {
        if self.markov_chain.states.len() == 0 {
            return false;
        }
        let w: String = "Working".to_owned();
        let st = &self.markov_chain.states[self.current_state];
        st.name == w
    }

    /// Advances the machine one tick with the given draw: the chain's current
    /// state is redrawn by the weighted-successor rule, and when the new
    /// state is "Working" one item moves through the machine's buffers.
    pub fn step_with_draw(&mut self, buffers: &mut Vec<Buffer>, r: u64)
        requires
            old(self).wf(),
            buffers_wf(old(buffers)@),
        ensures
            final(self).wf(),
            buffers_wf(final(buffers)@),
            machine_stepped_with(
                *old(self),
                *final(self),
                buffer_views(old(buffers)@),
                buffer_views(final(buffers)@),
                r,
            ),
    {
        if self.markov_chain.states.len() == 0 {
            return ;
        }
        let tgt: usize = match self.markov_chain.choose_transition(self.current_state, r) {
            Some(t) => t,
            None => self.current_state,
        };
        self.current_state = tgt;
        if self.is_working() {
            move_items(&self.input_buffer, &self.output_buffer, buffers);
        }
    }

    /// Advances the machine one tick with a fresh uniform draw.
    pub fn step(&mut self, buffers: &mut Vec<Buffer>)
        requires
            old(self).wf(),
            buffers_wf(old(buffers)@),
        ensures
            final(self).wf(),
            buffers_wf(final(buffers)@),
            machine_stepped(
                *old(self),
                *final(self),
                buffer_views(old(buffers)@),
                buffer_views(final(buffers)@),
            ),
    {
        let r = draw_below(PROB_ONE);
        self.step_with_draw(buffers, r);
    }
}

/// A mutation request accepted by the machine coordinator.
pub enum MachineEvent {
    /// Forward a ledger change of `item` by `quantity` through the machine
    /// with identity `machine_id` to its attached output buffer `buffer_id`.
    ChangeItem { machine_id: u128, buffer_id: u128, item: Item, quantity: i64 },
    /// Create a machine with a fresh empty chain and append it to the table.
    CreateMachine { processing_time: u64, output: Option<String> },
    /// Attach the buffer with identity `buffer_id` (which must exist in the
    /// buffer table) as an output of machine `machine_id`.
    AddBuffer { machine_id: u128, buffer_id: u128 },
    /// Detach the first output entry with identity `buffer_id` from machine
    /// `machine_id`; a no-op when no such entry is attached.
    RemoveBuffer { machine_id: u128, buffer_id: u128 },
}

/// Position of the first machine in the table whose identity is `id`.
pub fn find_machine_index(machines: &Vec<Machine>, id: u128) -> (r: Option<usize>)
    ensures
        (match machine_find(machines@, id) {
            Some(k) => {
                &&& 0 <= k < machines@.len()
                &&& r is Some
                &&& r->0 as int == k
                &&& machines@[k].id == id
            },
            None => r is None,
        }),
{
    let n = machines.len();
    let mut k: usize = 0;
    while k < n
        invariant
            n == machines@.len(),
            k <= n,
            machine_find(machines@, id) == machine_find_from(machines@, id, k as int),
        decreases n - k,
    {
        if machines[k].id == id {
            return Some(k);
        }
        k = k + 1;
    }
    None
}

/// A machine that only fills a table slot while its owner is swapped out.
pub(crate) fn placeholder_machine() -> (m: Machine)
    ensures
        m.wf(),
{
    Machine {
        id: 0,
        markov_chain: MarkovChain::new(),
        processing_time: 0,
        num_items: 0,
        output_name: None,
        input_buffer: Vec::new(),
        output_buffer: Vec::new(),
        current_state: 0,
    }
}

/// Applies one machine coordinator request against the shared machine and
/// buffer tables. Requests are applied one at a time in arrival order; a
/// failed lookup or a rejected mutation leaves both tables unchanged and the
/// error is returned, never swallowed.
pub fn apply_machine_event(
    machines: &mut Vec<Machine>,
    buffers: &mut Vec<Buffer>,
    event: MachineEvent,
) -> (r: Result<(), LineError>)
    requires
        machines_wf(old(machines)@),
        buffers_wf(old(buffers)@),
        (match event {
            MachineEvent::ChangeItem { machine_id, buffer_id, item, quantity } => match buffer_find(
                buffer_views(old(buffers)@),
                buffer_id,
            ) {
                Some(b) => ledger_qty(buffer_views(old(buffers)@)[b].items, item.id) + quantity
                    <= i64::MAX,
                None => true,
            },
            _ => true,
        }),
    ensures
        machines_wf(final(machines)@),
        buffers_wf(final(buffers)@),
        (match event {
            MachineEvent::ChangeItem { machine_id, buffer_id, item, quantity } => {
                match machine_find(old(machines)@, machine_id) {
                    None => {
                        &&& r == Result::<(), LineError>::Err(LineError::MachineNotFoundError)
                        &&& final(machines)@ == old(machines)@
                        &&& final(buffers)@ == old(buffers)@
                    },
                    Some(mi) => {
                        &&& final(machines)@ == old(machines)@
                        &&& r == change_result(
                            old(machines)@[mi].output_buffer@.contains(buffer_id),
                            buffer_views(old(buffers)@),
                            buffer_id,
                            item.id,
                            quantity as int,
                        )
                        &&& buffer_views(final(buffers)@) == change_effect(
                            old(machines)@[mi].output_buffer@.contains(buffer_id),
                            buffer_views(old(buffers)@),
                            buffer_id,
                            item.id,
                            quantity as int,
                        )
                    },
                }
            },
            MachineEvent::CreateMachine { processing_time, output } => {
                &&& final(buffers)@ == old(buffers)@
                &&& final(machines)@.len() == old(machines)@.len() + 1
                &&& forall|k: int|
                    0 <= k < old(machines)@.len() ==> final(machines)@[k] == old(machines)@[k]
                &&& final(machines)@.last().markov_chain.states@.len() == 0
                &&& final(machines)@.last().processing_time == processing_time
                &&& final(machines)@.last().num_items == 0
                &&& final(machines)@.last().output_name == output
                &&& final(machines)@.last().input_buffer@ == Seq::<u128>::empty()
                &&& final(machines)@.last().output_buffer@ == Seq::<u128>::empty()
                &&& r is Ok
            },
            MachineEvent::AddBuffer { machine_id, buffer_id } => {
                &&& final(buffers)@ == old(buffers)@
                &&& match machine_find(old(machines)@, machine_id) {
                    None => {
                        &&& r == Result::<(), LineError>::Err(LineError::MachineNotFoundError)
                        &&& final(machines)@ == old(machines)@
                    },
                    Some(mi) => {
                        match buffer_find(buffer_views(old(buffers)@), buffer_id) {
                            None => {
                                &&& r == Result::<(), LineError>::Err(
                                    LineError::BufferNotFoundError,
                                )
                                &&& final(machines)@ == old(machines)@
                            },
                            Some(_b) => {
                                &&& r is Ok
                                &&& final(machines)@.len() == old(machines)@.len()
                                &&& forall|k: int|
                                    0 <= k < old(machines)@.len() && k != mi ==> final(machines)@[k] == old(machines)@[k]
                                &&& Machine::same_but_output(
                                    old(machines)@[mi],
                                    final(machines)@[mi],
                                )
                                &&& final(machines)@[mi].output_buffer@ == old(
                                    machines,
                                )@[mi].output_buffer@.push(buffer_id)
                            },
                        }
                    },
                }
            },
            MachineEvent::RemoveBuffer { machine_id, buffer_id } => {
                &&& final(buffers)@ == old(buffers)@
                &&& match machine_find(old(machines)@, machine_id) {
                    None => {
                        &&& r == Result::<(), LineError>::Err(LineError::MachineNotFoundError)
                        &&& final(machines)@ == old(machines)@
                    },
                    Some(mi) => {
                        &&& r is Ok
                        &&& final(machines)@.len() == old(machines)@.len()
                        &&& forall|k: int|
                            0 <= k < old(machines)@.len() && k != mi ==> final(machines)@[k] == old(
                                machines,
                            )@[k]
                        &&& Machine::same_but_output(old(machines)@[mi], final(machines)@[mi])
                        &&& final(machines)@[mi].output_buffer@ == (match id_find_from(
                            old(machines)@[mi].output_buffer@,
                            buffer_id,
                            0,
                        ) {
                            Some(k) => old(machines)@[mi].output_buffer@.remove(k),
                            None => old(machines)@[mi].output_buffer@,
                        })
                    },
                }
            },
        }),
{
    match event {
        MachineEvent::ChangeItem { machine_id, buffer_id, item, quantity } => {
            match find_machine_index(machines, machine_id) {
                None => Err(LineError::MachineNotFoundError),
                Some(mi) => {
                    let m = &machines[mi];
                    m.change_items_to_buffer_by_id(buffers, buffer_id, &item, quantity)
                },
            }
        },
        MachineEvent::CreateMachine { processing_time, output } => {
            let m = Machine::new(MarkovChain::new(), processing_time, output);
            machines.push(m);
            Ok(())
        },
        MachineEvent::AddBuffer { machine_id, buffer_id } => {
            match find_machine_index(machines, machine_id) {
                None => Err(LineError::MachineNotFoundError),
                Some(mi) => {
                    match find_buffer_index(buffers, buffer_id) {
                        None => Err(LineError::BufferNotFoundError),
                        Some(_b) => {
                            let mut taken = placeholder_machine();
                            machines.set_and_swap(mi, &mut taken);
                            taken.add_output_buffer(buffer_id);
                            machines.set_and_swap(mi, &mut taken);
                            proof {
                                assert(machines@ =~= old(machines)@.update(
                                    mi as int,
                                    machines@[mi as int],
                                ));
                            }
                            Ok(())
                        },
                    }
                },
            }
        },
        MachineEvent::RemoveBuffer { machine_id, buffer_id } => {
            match find_machine_index(machines, machine_id) {
                None => Err(LineError::MachineNotFoundError),
                Some(mi) => {
                    let mut taken = placeholder_machine();
                    machines.set_and_swap(mi, &mut taken);
                    taken.remove_output_buffer(buffer_id);
                    machines.set_and_swap(mi, &mut taken);
                    proof {
                        assert(machines@ =~= old(machines)@.update(
                            mi as int,
                            machines@[mi as int],
                        ));
                    }
                    Ok(())
                },
            }
        },
    }
}

} // verus!
