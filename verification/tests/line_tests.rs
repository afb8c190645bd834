use transfer_line::buffer::Buffer;
use transfer_line::machine::Machine;
use transfer_line::markov::MarkovChain;
use transfer_line::transfer_lines::TransferLine;

fn working_only_machine() -> Machine {
    let mut c = MarkovChain::new();
    c.add_state("Working".to_owned());
    Machine::new(c, 1, None)
}

#[test]
fn new_builds_parallel_tables() {
    let t = TransferLine::new(vec![1, 2], vec![3, 4], vec![None, Some(5)]);
    assert_eq!(t.machines.len(), 2);
    assert_eq!(t.buffers.len(), 2);
    assert_eq!(t.machines[0].processing_time, 1);
    assert_eq!(t.machines[1].processing_time, 2);
    assert_eq!(t.buffers[0].capacity, 3);
    assert_eq!(t.buffers[1].capacity, 4);
    assert_eq!(t.buffers[1].get_throughput(), Some(5));
    assert_eq!(t.processing_times, vec![1, 2]);
    assert_eq!(t.capacities, vec![3, 4]);
    assert_eq!(t.num_items(), 0);
    assert_eq!(t.time_step, 1);
}

#[test]
fn add_machine_and_buffer_append() {
    let mut t = TransferLine::new(vec![1], vec![1], vec![None]);
    t.add_machine(9, Some("plates".to_owned()));
    t.add_buffer(7, None);
    assert_eq!(t.machines.len(), 2);
    assert_eq!(t.machines[1].processing_time, 9);
    assert_eq!(t.buffers.len(), 2);
    assert_eq!(t.buffers[1].capacity, 7);
}

#[test]
fn line_counts_items() {
    let mut t = TransferLine::new(vec![], vec![], vec![]);
    t.add_item();
    t.add_item();
    assert_eq!(t.num_items(), 2);
    t.remove_item();
    assert_eq!(t.num_items(), 1);
}

#[test]
fn step_advances_the_tick_counter() {
    let mut t = TransferLine::new(vec![1, 1], vec![1], vec![None]);
    t.step();
    t.step();
    assert_eq!(t.time_step, 3);
}

#[test]
fn connecting_buffer_never_exceeds_its_capacity() {
    // Two permanently working machines around one buffer of capacity 1 that
    // starts full: machine 1 cannot add (full), machine 2 removes one.
    let mut t = TransferLine::new(vec![], vec![], vec![]);
    let mut b = Buffer::new(1, None, None);
    b.add_item();
    let buffer_id = b.id;
    t.buffers.push(b);
    let mut m1 = working_only_machine();
    m1.add_output_buffer(buffer_id);
    let mut m2 = working_only_machine();
    m2.add_input_buffer(buffer_id);
    t.machines.push(m1);
    t.machines.push(m2);
    t.step();
    assert_eq!(t.buffers[0].num_items(), 0);
}

#[test]
fn same_tick_production_ripples_downstream() {
    // The buffer starts empty: machine 1 produces one item into it, and
    // machine 2, stepped later in the same tick, consumes that very item.
    let mut t = TransferLine::new(vec![], vec![], vec![]);
    let b = Buffer::new(1, None, None);
    let buffer_id = b.id;
    t.buffers.push(b);
    let mut m1 = working_only_machine();
    m1.add_output_buffer(buffer_id);
    let mut m2 = working_only_machine();
    m2.add_input_buffer(buffer_id);
    t.machines.push(m1);
    t.machines.push(m2);
    t.step();
    assert_eq!(t.buffers[0].num_items(), 0);
    // With the machines in the opposite order the consumer runs first on the
    // empty buffer and the item produced afterwards stays.
    let mut t2 = TransferLine::new(vec![], vec![], vec![]);
    let b2 = Buffer::new(1, None, None);
    let buffer_id2 = b2.id;
    t2.buffers.push(b2);
    let mut consumer = working_only_machine();
    consumer.add_input_buffer(buffer_id2);
    let mut producer = working_only_machine();
    producer.add_output_buffer(buffer_id2);
    t2.machines.push(consumer);
    t2.machines.push(producer);
    t2.step();
    assert_eq!(t2.buffers[0].num_items(), 1);
}
