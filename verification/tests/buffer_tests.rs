use transfer_line::buffer::{apply_buffer_event, find_buffer_index, Buffer, BufferEvent};
use transfer_line::errors::LineError;
use transfer_line::item::Item;

#[test]
fn counter_saturates_at_capacity_and_zero() {
    let mut b = Buffer::new(2, None, None);
    assert!(b.is_empty());
    assert!(!b.is_full());
    b.add_item();
    b.add_item();
    b.add_item();
    assert_eq!(b.num_items(), 2);
    assert!(b.is_full());
    b.remove_item();
    b.remove_item();
    b.remove_item();
    assert_eq!(b.num_items(), 0);
    assert!(b.is_empty());
}

#[test]
fn zero_capacity_buffer_is_full_and_empty() {
    let mut b = Buffer::new(0, None, None);
    assert!(b.is_full());
    assert!(b.is_empty());
    b.add_item();
    assert_eq!(b.num_items(), 0);
}

#[test]
fn throughput_and_name_are_stored() {
    let mut b = Buffer::new(1, Some(7), Some("feed".to_owned()));
    assert_eq!(b.get_throughput(), Some(7));
    b.set_throughput(9);
    assert_eq!(b.get_throughput(), Some(9));
    b.change_name("drain".to_owned());
    assert_eq!(b.name, Some("drain".to_owned()));
}

#[test]
fn change_item_quantity_accumulates_and_inserts() {
    let mut b = Buffer::new(1, None, None);
    let widget = Item::new("widget".to_owned(), 1, None);
    assert_eq!(b.get_item_quantity(widget.id()), None);
    assert_eq!(b.change_item_quantity(&widget, 5), Ok(()));
    assert_eq!(b.get_item_quantity(widget.id()), Some(5));
    assert_eq!(b.change_item_quantity(&widget, 3), Ok(()));
    assert_eq!(b.get_item_quantity(widget.id()), Some(8));
    assert_eq!(b.change_item_quantity(&widget, -8), Ok(()));
    assert_eq!(b.get_item_quantity(widget.id()), Some(0));
}

#[test]
fn change_item_quantity_rejects_negative_result() {
    let mut b = Buffer::new(1, None, None);
    let widget = Item::new("widget".to_owned(), 1, None);
    assert_eq!(b.change_item_quantity(&widget, 8), Ok(()));
    assert_eq!(
        b.change_item_quantity(&widget, -9),
        Err(LineError::NegativeQuantityError)
    );
    // The rejected change left the ledger exactly as it was.
    assert_eq!(b.get_item_quantity(widget.id()), Some(8));
    assert_eq!(b.items, vec![(widget.id(), 8)]);
}

#[test]
fn change_item_quantity_rejects_negative_insert() {
    let mut b = Buffer::new(1, None, None);
    let widget = Item::new("widget".to_owned(), 1, None);
    assert_eq!(
        b.change_item_quantity(&widget, -1),
        Err(LineError::NegativeQuantityError)
    );
    assert_eq!(b.get_item_quantity(widget.id()), None);
    assert!(b.items.is_empty());
}

#[test]
fn ledger_tracks_items_independently() {
    let mut b = Buffer::new(1, None, None);
    let bolts = Item::new("bolt".to_owned(), 1, Some(2));
    let nuts = Item::new("nut".to_owned(), 1, Some(1));
    b.change_item_quantity(&bolts, 10).unwrap();
    b.change_item_quantity(&nuts, 4).unwrap();
    b.change_item_quantity(&bolts, -1).unwrap();
    assert_eq!(b.get_item_quantity(bolts.id()), Some(9));
    assert_eq!(b.get_item_quantity(nuts.id()), Some(4));
}

#[test]
fn buffers_get_distinct_identities() {
    let a = Buffer::new(1, None, None);
    let b = Buffer::new(1, None, None);
    assert_ne!(a.id, b.id);
}

#[test]
fn buffer_event_create_and_destroy() {
    let mut buffers: Vec<Buffer> = Vec::new();
    assert_eq!(
        apply_buffer_event(
            &mut buffers,
            BufferEvent::CreateBuffer { capacity: 3, throughput: None, name: None }
        ),
        Ok(())
    );
    assert_eq!(buffers.len(), 1);
    let id = buffers[0].id;
    assert_eq!(find_buffer_index(&buffers, id), Some(0));
    assert_eq!(
        apply_buffer_event(&mut buffers, BufferEvent::DestroyBuffer { id }),
        Ok(())
    );
    assert!(buffers.is_empty());
    assert_eq!(
        apply_buffer_event(&mut buffers, BufferEvent::DestroyBuffer { id }),
        Err(LineError::BufferNotFoundError)
    );
}

#[test]
fn buffer_event_change_item_routes_by_identity() {
    let mut buffers = vec![Buffer::new(1, None, None), Buffer::new(1, None, None)];
    let second = buffers[1].id;
    let widget = Item::new("widget".to_owned(), 1, None);
    assert_eq!(
        apply_buffer_event(
            &mut buffers,
            BufferEvent::ChangeItem { buffer_id: second, item: widget.clone(), quantity: 2 }
        ),
        Ok(())
    );
    assert_eq!(buffers[0].get_item_quantity(widget.id()), None);
    assert_eq!(buffers[1].get_item_quantity(widget.id()), Some(2));
    assert_eq!(
        apply_buffer_event(
            &mut buffers,
            BufferEvent::ChangeItem { buffer_id: second, item: widget.clone(), quantity: -3 }
        ),
        Err(LineError::NegativeQuantityError)
    );
    assert_eq!(buffers[1].get_item_quantity(widget.id()), Some(2));
    assert_eq!(
        apply_buffer_event(
            &mut buffers,
            BufferEvent::ChangeItem { buffer_id: 0, item: widget.clone(), quantity: 1 }
        ),
        Err(LineError::BufferNotFoundError)
    );
}
