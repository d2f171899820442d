use std::cell::Cell;

use echo_server::shared_ringbuffer::{
    dequeue, dequeue_free, dequeue_used, enqueue, enqueue_free, enqueue_used, notify, ring_empty,
    ring_full, ring_init, ring_size, BuffDesc, RingBuffer, RING_SIZE, RING_SLOTS,
};

fn desc(addr: usize, len: usize, cookie: usize) -> BuffDesc {
    BuffDesc { encoded_addr: addr, len, cookie }
}

fn ring(write_idx: u32, read_idx: u32) -> RingBuffer {
    RingBuffer::from_parts(write_idx, read_idx, [desc(0, 0, 0); RING_SLOTS])
}

#[test]
fn ring_size_is_distance_between_indices() {
    let r = ring(10, 3);
    assert_eq!(ring_size(&r), 7);
    assert!(!ring_empty(&r));
    assert!(!ring_full(&r));
}

#[test]
fn ring_with_equal_indices_is_empty() {
    let r = ring(700, 700);
    assert_eq!(ring_size(&r), 0);
    assert!(ring_empty(&r));
    assert!(!ring_full(&r));
}

#[test]
fn ring_holding_one_less_than_its_slots_is_full() {
    let r = ring(600, 89);
    assert_eq!(ring_size(&r), RING_SIZE - 1);
    assert!(ring_full(&r));
    assert!(!ring_empty(&r));
}

#[test]
fn enqueue_writes_the_slot_of_the_write_index() {
    let mut r = ring(513, 100);
    assert_eq!(enqueue(&mut r, 0x1000, 64, 3), Ok(()));
    assert_eq!(r.write_idx(), 514);
    assert_eq!(r.read_idx(), 100);
    assert_eq!(r.buffers()[1], desc(0x1000, 64, 3));
    assert_eq!(r.buffers()[0], desc(0, 0, 0));
}

#[test]
fn enqueue_onto_full_ring_fails_and_changes_nothing() {
    let mut r = ring(511, 0);
    assert_eq!(enqueue(&mut r, 0x1000, 64, 3), Err("Trying to enqueue onto a full ring"));
    assert_eq!(r.write_idx(), 511);
    assert_eq!(r.read_idx(), 0);
    assert_eq!(r.buffers()[511], desc(0, 0, 0));
}

#[test]
fn dequeue_from_empty_ring_fails_and_changes_nothing() {
    let mut r = ring(42, 42);
    assert_eq!(dequeue(&mut r), Err("Trying to dequeue from an empty ring"));
    assert_eq!(r.write_idx(), 42);
    assert_eq!(r.read_idx(), 42);
}

#[test]
fn dequeue_reads_the_slot_of_the_read_index_across_the_wrap() {
    let mut slots = [desc(0, 0, 0); RING_SLOTS];
    slots[511] = desc(0xa000, 10, 1);
    slots[0] = desc(0xb000, 20, 2);
    let mut r = RingBuffer::from_parts(1025, 1023, slots);
    assert_eq!(dequeue(&mut r), Ok(desc(0xa000, 10, 1)));
    assert_eq!(dequeue(&mut r), Ok(desc(0xb000, 20, 2)));
    assert_eq!(r.read_idx(), 1025);
    assert!(ring_empty(&r));
}

#[test]
fn descriptors_come_out_in_the_order_they_went_in() {
    let mut r = ring(509, 509);
    for i in 1..=5usize {
        assert_eq!(enqueue(&mut r, 0x100 * i, i, 10 + i), Ok(()));
    }
    assert_eq!(ring_size(&r), 5);
    for i in 1..=5usize {
        assert_eq!(dequeue(&mut r), Ok(desc(0x100 * i, i, 10 + i)));
    }
    assert!(ring_empty(&r));
}

#[test]
fn enqueue_then_dequeue_on_empty_ring_gives_back_the_descriptor() {
    let mut r = ring(3, 3);
    assert_eq!(enqueue(&mut r, 0x4000, 1500, 77), Ok(()));
    assert_eq!(dequeue(&mut r), Ok(desc(0x4000, 1500, 77)));
    assert!(ring_empty(&r));
}

#[test]
fn an_empty_ring_takes_one_less_descriptor_than_it_has_slots() {
    let mut r = ring(0, 0);
    for i in 0..(RING_SIZE as usize - 1) {
        assert_eq!(enqueue(&mut r, 0x1000 + i, i, i), Ok(()));
    }
    assert!(ring_full(&r));
    assert_eq!(enqueue(&mut r, 0x9999, 1, 1), Err("Trying to enqueue onto a full ring"));
    for i in 0..(RING_SIZE as usize - 1) {
        assert_eq!(dequeue(&mut r), Ok(desc(0x1000 + i, i, i)));
    }
    assert!(ring_empty(&r));
}

#[test]
fn ring_init_resets_indices_when_asked() {
    let handle = ring_init(ring(9, 4), ring(30, 30), (), true);
    assert_eq!(handle.free.write_idx(), 0);
    assert_eq!(handle.free.read_idx(), 0);
    assert_eq!(handle.used.write_idx(), 0);
    assert_eq!(handle.used.read_idx(), 0);
}

#[test]
fn ring_init_keeps_indices_otherwise() {
    let handle = ring_init(ring(9, 4), ring(30, 25), (), false);
    assert_eq!(handle.free.write_idx(), 9);
    assert_eq!(handle.free.read_idx(), 4);
    assert_eq!(handle.used.write_idx(), 30);
    assert_eq!(handle.used.read_idx(), 25);
}

#[test]
fn handle_operations_touch_only_their_ring() {
    let mut handle = ring_init(ring(0, 0), ring(0, 0), (), false);
    assert_eq!(enqueue_free(&mut handle, 0x10, 1, 2), Ok(()));
    assert_eq!(ring_size(&handle.free), 1);
    assert_eq!(ring_size(&handle.used), 0);
    assert_eq!(enqueue_used(&mut handle, 0x20, 3, 4), Ok(()));
    assert_eq!(ring_size(&handle.used), 1);
    assert_eq!(dequeue_used(&mut handle), Ok(desc(0x20, 3, 4)));
    assert_eq!(ring_size(&handle.free), 1);
    assert_eq!(dequeue_free(&mut handle), Ok(desc(0x10, 1, 2)));
    assert_eq!(dequeue_free(&mut handle), Err("Trying to dequeue from an empty ring"));
    assert_eq!(dequeue_used(&mut handle), Err("Trying to dequeue from an empty ring"));
}

#[test]
fn handle_enqueue_onto_full_ring_fails() {
    let mut handle = ring_init(ring(511, 0), ring(611, 100), (), false);
    assert_eq!(enqueue_free(&mut handle, 0x10, 1, 2), Err("Trying to enqueue onto a full ring"));
    assert_eq!(enqueue_used(&mut handle, 0x10, 1, 2), Err("Trying to enqueue onto a full ring"));
}

#[test]
fn notify_calls_the_handle_notifier() {
    let calls = Cell::new(0u32);
    let handle = ring_init(ring(0, 0), ring(0, 0), || calls.set(calls.get() + 1), true);
    notify(&handle);
    notify(&handle);
    assert_eq!(calls.get(), 2);
}

#[test]
fn notify_with_the_empty_callback_does_nothing() {
    let handle = ring_init(ring(5, 1), ring(0, 0), echo_server::copy::void, false);
    notify(&handle);
    assert_eq!(ring_size(&handle.free), 4);
}

#[test]
fn writes_since_lists_the_slots_filled_after_an_index() {
    let mut r = ring(510, 505);
    enqueue(&mut r, 0x1, 1, 1).unwrap();
    enqueue(&mut r, 0x2, 2, 2).unwrap();
    enqueue(&mut r, 0x3, 3, 3).unwrap();
    assert_eq!(
        r.writes_since(510),
        vec![(510, desc(0x1, 1, 1)), (511, desc(0x2, 2, 2)), (0, desc(0x3, 3, 3))]
    );
    assert!(r.writes_since(513).is_empty());
}
