//! A transfer line: machines M_1..M_n connected by capacity-bounded buffers,
//! advanced one tick at a time. Machines step in list order within a tick, so
//! a later machine can observe an item that a same-tick earlier machine just
//! produced (the "ripple" semantics).

use vstd::prelude::*;
use vstd::pervasive::VecAdditionalExecFns;
use crate::buffer::{Buffer, BufferView, buffer_views, buffers_wf};
use crate::machine::{Machine, machine_stepped_with, machines_wf};
use crate::markov::{MarkovChain, PROB_ONE};
use crate::random::{draw_below, fresh_id};

verus! {

/// One production line: parallel tables of machines and buffers, the
/// construction parameters, an item counter and a tick counter.
pub struct TransferLine {
    pub id: u128,
    pub machines: Vec<Machine>,
    pub buffers: Vec<Buffer>,
    pub processing_times: Vec<u64>,
    pub capacities: Vec<usize>,
    pub num_items: usize,
    pub time_step: usize,
}

/// One whole tick: machine `k` steps with draw `draws[k]` against the buffer
/// table left behind by machines `0..k`; `tables` chains the buffer views
/// through the tick, from `tables[0]` before any machine to `tables[n]` after
/// all of them.
pub open spec fn line_stepped_with(
    pre_ms: Seq<Machine>,
    post_ms: Seq<Machine>,
    tables: Seq<Seq<BufferView>>,
    draws: Seq<u64>,
) -> bool {
    &&& post_ms.len() == pre_ms.len()
    &&& draws.len() == pre_ms.len()
    &&& tables.len() == pre_ms.len() + 1
    &&& forall|k: int|
        0 <= k < pre_ms.len() ==> #[trigger] machine_stepped_with(
            pre_ms[k],
            post_ms[k],
            tables[k],
            tables[k + 1],
            draws[k],
        )
}

/// One whole tick under some chain of tables and uniform draws.
pub open spec fn spec_line_stepped(
    pre_ms: Seq<Machine>,
    post_ms: Seq<Machine>,
    pre_b: Seq<BufferView>,
    post_b: Seq<BufferView>,
) -> bool {
    exists|draws: Seq<u64>, tables: Seq<Seq<BufferView>>|
        {
            &&& tables[0] == pre_b
            &&& tables[pre_ms.len() as int] == post_b
            &&& forall|i: int| 0 <= i < draws.len() ==> (#[trigger] draws[i]) < PROB_ONE
            &&& #[trigger] line_stepped_with(pre_ms, post_ms, tables, draws)
        }
}

impl TransferLine {
    /// Validity of the line's tables.
    pub open spec fn wf(self) -> bool {
        &&& machines_wf(self.machines@)
        &&& buffers_wf(self.buffers@)
    }

    /// Builds one machine per processing time — each with a fresh, initially
    /// empty chain — and one buffer per capacity, in parallel arrays. The
    /// topology is wired afterwards through the machines' attach calls.
    pub fn new(
        processing_times: Vec<u64>,
        capacities: Vec<usize>,
        throughputs: Vec<Option<u64>>,
    ) -> (t: TransferLine)
        requires
            throughputs@.len() == capacities@.len(),
        ensures
            t.wf(),
            t.machines@.len() == processing_times@.len(),
            forall|i: int|
                0 <= i < t.machines@.len() ==> {
                    &&& (#[trigger] t.machines@[i]).markov_chain.states@.len() == 0
                    &&& t.machines@[i].processing_time == processing_times@[i]
                    &&& t.machines@[i].num_items == 0
                    &&& t.machines@[i].output_name is None
                    &&& t.machines@[i].input_buffer@ == Seq::<u128>::empty()
                    &&& t.machines@[i].output_buffer@ == Seq::<u128>::empty()
                },
            t.buffers@.len() == capacities@.len(),
            forall|i: int|
                0 <= i < t.buffers@.len() ==> {
                    &&& (#[trigger] t.buffers@[i])@.capacity == capacities@[i]
                    &&& t.buffers@[i]@.num_items == 0
                    &&& t.buffers@[i]@.throughput == throughputs@[i]
                    &&& t.buffers@[i]@.items == Seq::<(u128, i64)>::empty()
                },
            t.processing_times@ == processing_times@,
            t.capacities@ == capacities@,
            t.num_items == 0,
            t.time_step == 1,
    {
        let num_machines = processing_times.len();
        let num_buffers = capacities.len();
        let mut machines: Vec<Machine> = Vec::new();
        let mut i: usize = 0;
        while i < num_machines
            invariant
                i <= num_machines,
                num_machines == processing_times@.len(),
                machines@.len() == i,
                forall|p: int|
                    0 <= p < i ==> {
                        &&& (#[trigger] machines@[p]).wf()
                        &&& machines@[p].markov_chain.states@.len() == 0
                        &&& machines@[p].processing_time == processing_times@[p]
                        &&& machines@[p].num_items == 0
                        &&& machines@[p].output_name is None
                        &&& machines@[p].input_buffer@ == Seq::<u128>::empty()
                        &&& machines@[p].output_buffer@ == Seq::<u128>::empty()
                    },
            decreases num_machines - i,
        {
            machines.push(Machine::new(MarkovChain::new(), processing_times[i], None));
            i = i + 1;
        }
        let mut buffers: Vec<Buffer> = Vec::new();
        let mut i: usize = 0;
        while i < num_buffers
            invariant
                i <= num_buffers,
                num_buffers == capacities@.len(),
                throughputs@.len() == num_buffers,
                buffers@.len() == i,
                forall|p: int|
                    0 <= p < i ==> {
                        &&& (#[trigger] buffers@[p]).wf()
                        &&& buffers@[p]@.capacity == capacities@[p]
                        &&& buffers@[p]@.num_items == 0
                        &&& buffers@[p]@.throughput == throughputs@[p]
                        &&& buffers@[p]@.items == Seq::<(u128, i64)>::empty()
                    },
            decreases num_buffers - i,
        {
            buffers.push(Buffer::new(capacities[i], throughputs[i], None));
            i = i + 1;
        }
        TransferLine {
            id: fresh_id(),
            machines,
            buffers,
            processing_times,
            capacities,
            num_items: 0,
            time_step: 1,
        }
    }

    /// Appends a new unconnected machine with a fresh empty chain.
    pub fn add_machine(&mut self, processing_time: u64, output: Option<String>)
        requires
            old(self).wf(),
        ensures
            final(self).wf(),
            final(self).machines@.len() == old(self).machines@.len() + 1,
            forall|k: int|
                0 <= k < old(self).machines@.len() ==> final(self).machines@[k] == old(
                    self,
                ).machines@[k],
            final(self).machines@.last().markov_chain.states@.len() == 0,
            final(self).machines@.last().processing_time == processing_time,
            final(self).machines@.last().num_items == 0,
            final(self).machines@.last().output_name == output,
            final(self).buffers@ == old(self).buffers@,
            TransferLine::same_but_tables(*old(self), *final(self)),
    {
        self.machines.push(Machine::new(MarkovChain::new(), processing_time, output));
    }

    /// Appends a new unconnected buffer.
    pub fn add_buffer(&mut self, capacity: usize, throughput: Option<u64>)
        requires
            old(self).wf(),
        ensures
            final(self).wf(),
            final(self).buffers@.len() == old(self).buffers@.len() + 1,
            forall|k: int|
                0 <= k < old(self).buffers@.len() ==> final(self).buffers@[k] == old(
                    self,
                ).buffers@[k],
            final(self).buffers@.last()@.capacity == capacity,
            final(self).buffers@.last()@.num_items == 0,
            final(self).buffers@.last()@.throughput == throughput,
            final(self).buffers@.last()@.items == Seq::<(u128, i64)>::empty(),
            final(self).machines@ == old(self).machines@,
            TransferLine::same_but_tables(*old(self), *final(self)),
    {
        self.buffers.push(Buffer::new(capacity, throughput, None));
    }

    /// All fields agree except possibly the machine and buffer tables.
    pub open spec fn same_but_tables(pre: TransferLine, post: TransferLine) -> bool {
        &&& post.id == pre.id
        &&& post.processing_times@ == pre.processing_times@
        &&& post.capacities@ == pre.capacities@
        &&& post.num_items == pre.num_items
        &&& post.time_step == pre.time_step
    }

    /// Counts one item into the line.
    pub fn add_item(&mut self)
        requires
            old(self).wf(),
            old(self).num_items < usize::MAX,
        ensures
            final(self).wf(),
            final(self).num_items == old(self).num_items + 1,
            TransferLine::same_but_count(*old(self), *final(self)),
    {
        self.num_items = self.num_items + 1;
    }

    /// Counts one item out of the line.
    pub fn remove_item(&mut self)
        requires
            old(self).wf(),
            old(self).num_items > 0,
        ensures
            final(self).wf(),
            final(self).num_items == old(self).num_items - 1,
            TransferLine::same_but_count(*old(self), *final(self)),
    {
        self.num_items = self.num_items - 1;
    }

    /// All fields agree except possibly the item count.
    pub open spec fn same_but_count(pre: TransferLine, post: TransferLine) -> bool {
        &&& post.id == pre.id
        &&& post.machines@ == pre.machines@
        &&& post.buffers@ == pre.buffers@
        &&& post.processing_times@ == pre.processing_times@
        &&& post.capacities@ == pre.capacities@
        &&& post.time_step == pre.time_step
    }

    /// The number of items counted into the line.
    pub fn num_items(&self) -> (r: usize)
        ensures
            r == self.num_items,
    {
        self.num_items
    }

    /// Advances the tick counter and steps every machine once, in list
    /// order, against the shared buffer table: a later machine sees what an
    /// earlier machine produced in the same tick.
    pub fn step(&mut self)
        requires
            old(self).wf(),
            old(self).time_step < usize::MAX,
        ensures
            final(self).wf(),
            final(self).time_step == old(self).time_step + 1,
            final(self).id == old(self).id,
            final(self).processing_times@ == old(self).processing_times@,
            final(self).capacities@ == old(self).capacities@,
            final(self).num_items == old(self).num_items,
            final(self).machines@.len() == old(self).machines@.len(),
            spec_line_stepped(
                old(self).machines@,
                final(self).machines@,
                buffer_views(old(self).buffers@),
                buffer_views(final(self).buffers@),
            ),
    {
        self.time_step = self.time_step + 1;
        let n = self.machines.len();
        let ghost v0 = buffer_views(self.buffers@);
        let ghost mut tables: Seq<Seq<BufferView>> = seq![v0];
        let ghost mut draws: Seq<u64> = Seq::empty();
        let mut k: usize = 0;
        while k < n
            invariant
                n == self.machines@.len(),
                n == old(self).machines@.len(),
                k <= n,
                machines_wf(self.machines@),
                buffers_wf(self.buffers@),
                self.id == old(self).id,
                self.processing_times@ == old(self).processing_times@,
                self.capacities@ == old(self).capacities@,
                self.num_items == old(self).num_items,
                self.time_step == old(self).time_step + 1,
                v0 == buffer_views(old(self).buffers@),
                draws.len() == k,
                tables.len() == k + 1,
                tables[0] == v0,
                tables[k as int] == buffer_views(self.buffers@),
                forall|i: int| 0 <= i < k ==> (#[trigger] draws[i]) < PROB_ONE,
                forall|i: int|
                    k <= i < n ==> #[trigger] self.machines@[i] == old(self).machines@[i],
                forall|i: int|
                    0 <= i < k ==> #[trigger] machine_stepped_with(
                        old(self).machines@[i],
                        self.machines@[i],
                        tables[i],
                        tables[i + 1],
                        draws[i],
                    ),
            decreases n - k,
        {
            let r = draw_below(PROB_ONE);
            let mut taken = crate::machine::placeholder_machine();
            self.machines.set_and_swap(k, &mut taken);
            taken.step_with_draw(&mut self.buffers, r);
            self.machines.set_and_swap(k, &mut taken);
            proof {
                draws = draws.push(r);
                tables = tables.push(buffer_views(self.buffers@));
            }
            k = k + 1;
        }
        proof {
            assert(line_stepped_with(old(self).machines@, self.machines@, tables, draws));
        }
    }
}

} // verus!
