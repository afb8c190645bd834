use transfer_line::buffer::Buffer;
use transfer_line::errors::LineError;
use transfer_line::item::Item;
use transfer_line::machine::{apply_machine_event, find_machine_index, Machine, MachineEvent};
use transfer_line::markov::{generate_transition_matrix, MarkovChain};

fn working_only_chain() -> MarkovChain {
    let mut c = MarkovChain::new();
    c.add_state("Working".to_owned());
    c
}

fn idle_only_chain() -> MarkovChain {
    let mut c = MarkovChain::new();
    c.add_state("Idle".to_owned());
    c
}

#[test]
fn new_default_machine_starts_idle() {
    let m = Machine::new_default_machine("mill".to_owned(), 4);
    assert_eq!(m.current_state, 0);
    assert_eq!(m.markov_chain.get_state_name(0), "Idle");
    assert_eq!(m.markov_chain.get_state_name(1), "Working");
    assert_eq!(m.markov_chain.get_state_name(2), "Broken");
    assert_eq!(m.processing_time, 4);
    assert!(!m.is_working());
    // The fixed one-percent-breakage transition set.
    let matrix = generate_transition_matrix(&m.markov_chain);
    assert_eq!(matrix[0], vec![0, 990_000_000, 10_000_000]);
    assert_eq!(matrix[1], vec![990_000_000, 0, 10_000_000]);
    assert_eq!(matrix[2], vec![500_000_000, 500_000_000, 0]);
    let mut it = m.markov_chain.successors(0);
    assert_eq!(it.next(), Some(2));
    assert_eq!(it.next(), Some(1));
    assert_eq!(it.next(), None);
}

#[test]
fn add_input_buffer_is_idempotent_by_identity() {
    let mut m = Machine::new(MarkovChain::new(), 1, None);
    m.add_input_buffer(42);
    m.add_input_buffer(42);
    m.add_input_buffer(7);
    assert_eq!(m.input_buffer, vec![42, 7]);
}

#[test]
fn add_output_buffer_allows_duplicates() {
    let mut m = Machine::new(MarkovChain::new(), 1, None);
    m.add_output_buffer(42);
    m.add_output_buffer(42);
    assert_eq!(m.output_buffer, vec![42, 42]);
}

#[test]
fn remove_buffers_detach_first_occurrence() {
    let mut m = Machine::new(MarkovChain::new(), 1, None);
    m.add_input_buffer(1);
    m.add_input_buffer(2);
    m.remove_input_buffer(1);
    m.remove_input_buffer(99);
    assert_eq!(m.input_buffer, vec![2]);
    m.add_output_buffer(5);
    m.add_output_buffer(5);
    m.remove_output_buffer(5);
    assert_eq!(m.output_buffer, vec![5]);
}

#[test]
fn machine_counts_items() {
    let mut m = Machine::new(MarkovChain::new(), 1, None);
    m.add_item();
    m.add_item();
    assert_eq!(m.num_items(), 2);
    m.remove_item();
    assert_eq!(m.num_items(), 1);
}

#[test]
fn output_name_round_trips() {
    let mut m = Machine::new(MarkovChain::new(), 1, Some("gears".to_owned()));
    assert_eq!(m.get_output_name(), Some("gears".to_owned()));
    m.set_output_name("cogs".to_owned());
    assert_eq!(m.get_output_name(), Some("cogs".to_owned()));
}

#[test]
fn change_items_requires_attached_output() {
    let mut buffers = vec![Buffer::new(1, None, None)];
    let id = buffers[0].id;
    let widget = Item::new("widget".to_owned(), 1, None);
    let mut m = Machine::new(MarkovChain::new(), 1, None);
    assert_eq!(
        m.change_items_to_buffer_by_id(&mut buffers, id, &widget, 2),
        Err(LineError::BufferNotFoundError)
    );
    m.add_output_buffer(id);
    assert_eq!(m.change_items_to_buffer_by_id(&mut buffers, id, &widget, 2), Ok(()));
    assert_eq!(buffers[0].get_item_quantity(widget.id()), Some(2));
    assert_eq!(
        m.change_items_to_buffer_by_id(&mut buffers, id, &widget, -3),
        Err(LineError::NegativeQuantityError)
    );
    assert_eq!(buffers[0].get_item_quantity(widget.id()), Some(2));
}

#[test]
fn working_machine_moves_one_item_through() {
    let mut buffers = vec![Buffer::new(5, None, None), Buffer::new(5, None, None)];
    buffers[0].add_item();
    buffers[0].add_item();
    let input_id = buffers[0].id;
    let output_id = buffers[1].id;
    let mut m = Machine::new(working_only_chain(), 1, None);
    m.add_input_buffer(input_id);
    m.add_output_buffer(output_id);
    assert!(m.is_working());
    m.step(&mut buffers);
    // A working machine with no outgoing transitions stays working: one item
    // left the input, one item entered the output.
    assert_eq!(buffers[0].num_items(), 1);
    assert_eq!(buffers[1].num_items(), 1);
}

#[test]
fn idle_machine_moves_nothing() {
    let mut buffers = vec![Buffer::new(5, None, None)];
    buffers[0].add_item();
    let id = buffers[0].id;
    let mut m = Machine::new(idle_only_chain(), 1, None);
    m.add_input_buffer(id);
    m.add_output_buffer(id);
    m.step(&mut buffers);
    assert_eq!(buffers[0].num_items(), 1);
}

#[test]
fn working_machine_skips_empty_inputs_and_full_outputs() {
    let mut buffers = vec![Buffer::new(1, None, None), Buffer::new(1, None, None)];
    buffers[1].add_item();
    let empty_id = buffers[0].id;
    let full_id = buffers[1].id;
    let mut m = Machine::new(working_only_chain(), 1, None);
    m.add_input_buffer(empty_id);
    m.add_output_buffer(full_id);
    m.step(&mut buffers);
    // Nothing to take from the empty input; no room in the full output.
    assert_eq!(buffers[0].num_items(), 0);
    assert_eq!(buffers[1].num_items(), 1);
}

#[test]
fn broken_fraction_matches_stationary_distribution() {
    // The default chain breaks one percent of the time from Idle and from
    // Working and repairs with probability one half: the stationary share of
    // "Broken" is 0.01 / 1.01, close to one percent of all ticks.
    let mut buffers: Vec<Buffer> = Vec::new();
    let mut m = Machine::new_default_machine("mill".to_owned(), 1);
    let ticks = 100_000;
    let mut broken = 0u64;
    for _ in 0..ticks {
        m.step(&mut buffers);
        if m.markov_chain.get_state_name(m.current_state) == "Broken" {
            broken += 1;
        }
    }
    let fraction = broken as f64 / ticks as f64;
    assert!(
        fraction > 0.004 && fraction < 0.02,
        "broken fraction {} is far from one percent",
        fraction
    );
}

#[test]
fn machine_event_create_and_find() {
    let mut machines: Vec<Machine> = Vec::new();
    let mut buffers: Vec<Buffer> = Vec::new();
    assert_eq!(
        apply_machine_event(
            &mut machines,
            &mut buffers,
            MachineEvent::CreateMachine { processing_time: 3, output: Some("rods".to_owned()) }
        ),
        Ok(())
    );
    assert_eq!(machines.len(), 1);
    assert_eq!(machines[0].processing_time, 3);
    let id = machines[0].id;
    assert_eq!(find_machine_index(&machines, id), Some(0));
}

#[test]
fn machine_event_add_and_remove_buffer() {
    let mut machines = vec![Machine::new(MarkovChain::new(), 1, None)];
    let mut buffers = vec![Buffer::new(2, None, None)];
    let machine_id = machines[0].id;
    let buffer_id = buffers[0].id;
    assert_eq!(
        apply_machine_event(
            &mut machines,
            &mut buffers,
            MachineEvent::AddBuffer { machine_id: 0, buffer_id }
        ),
        Err(LineError::MachineNotFoundError)
    );
    assert_eq!(
        apply_machine_event(
            &mut machines,
            &mut buffers,
            MachineEvent::AddBuffer { machine_id, buffer_id: 0 }
        ),
        Err(LineError::BufferNotFoundError)
    );
    assert_eq!(
        apply_machine_event(
            &mut machines,
            &mut buffers,
            MachineEvent::AddBuffer { machine_id, buffer_id }
        ),
        Ok(())
    );
    assert_eq!(machines[0].output_buffer, vec![buffer_id]);
    assert_eq!(
        apply_machine_event(
            &mut machines,
            &mut buffers,
            MachineEvent::RemoveBuffer { machine_id, buffer_id }
        ),
        Ok(())
    );
    assert!(machines[0].output_buffer.is_empty());
}

#[test]
fn machine_event_change_item_forwards_errors() {
    let mut machines = vec![Machine::new(MarkovChain::new(), 1, None)];
    let mut buffers = vec![Buffer::new(2, None, None)];
    let machine_id = machines[0].id;
    let buffer_id = buffers[0].id;
    let widget = Item::new("widget".to_owned(), 1, None);
    assert_eq!(
        apply_machine_event(
            &mut machines,
            &mut buffers,
            MachineEvent::ChangeItem {
                machine_id: 0,
                buffer_id,
                item: widget.clone(),
                quantity: 1
            }
        ),
        Err(LineError::MachineNotFoundError)
    );
    machines[0].add_output_buffer(buffer_id);
    assert_eq!(
        apply_machine_event(
            &mut machines,
            &mut buffers,
            MachineEvent::ChangeItem { machine_id, buffer_id, item: widget.clone(), quantity: 6 }
        ),
        Ok(())
    );
    assert_eq!(buffers[0].get_item_quantity(widget.id()), Some(6));
}

#[test]
fn create_and_add_buffers_extend_the_table() {
    let mut buffers: Vec<Buffer> = Vec::new();
    let mut m = Machine::new(MarkovChain::new(), 1, Some("gears".to_owned()));
    m.create_and_add_input_buffer(&mut buffers, 3, Some(2));
    m.create_and_add_output_buffer(&mut buffers, 4, None);
    assert_eq!(buffers.len(), 2);
    assert_eq!(buffers[0].capacity, 3);
    assert_eq!(buffers[0].get_throughput(), Some(2));
    assert_eq!(buffers[1].capacity, 4);
    // The output buffer takes the machine's output name; the input stays
    // unnamed.
    assert_eq!(buffers[0].name, None);
    assert_eq!(buffers[1].name, Some("gears".to_owned()));
    assert_eq!(m.input_buffer, vec![buffers[0].id]);
    assert_eq!(m.output_buffer, vec![buffers[1].id]);
}

#[test]
fn working_machine_takes_from_first_nonempty_input() {
    let mut buffers = vec![Buffer::new(2, None, None), Buffer::new(2, None, None)];
    buffers[1].add_item();
    let empty_id = buffers[0].id;
    let stocked_id = buffers[1].id;
    let mut m = Machine::new(working_only_chain(), 1, None);
    m.add_input_buffer(empty_id);
    m.add_input_buffer(stocked_id);
    m.step(&mut buffers);
    // The first attached input is empty and is skipped; the stocked one
    // loses the item.
    assert_eq!(buffers[0].num_items(), 0);
    assert_eq!(buffers[1].num_items(), 0);
}
