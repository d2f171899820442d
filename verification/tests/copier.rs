use echo_server::copy::{
    init, process_rx_complete, rx_rings_ready, rx_signals, void, PayloadCopy, Round, Signal, Warning, BUF_SIZE, CLIENT,
    MUX_RX, NUM_BUFFERS, SHARED_DMA_CLIENT_END, SHARED_DMA_CLIENT_START, SHARED_DMA_MUX_START,
};
use echo_server::shared_ringbuffer::{
    dequeue, enqueue, ring_empty, ring_full, ring_init, ring_size, BuffDesc, RingBuffer,
    RingHandle, RING_SLOTS,
};

fn desc(addr: usize, len: usize, cookie: usize) -> BuffDesc {
    BuffDesc { encoded_addr: addr, len, cookie }
}

fn ring(write_idx: u32, read_idx: u32) -> RingBuffer {
    RingBuffer::from_parts(write_idx, read_idx, [desc(0, 0, 0); RING_SLOTS])
}

fn ring_of(descs: &[BuffDesc]) -> RingBuffer {
    let mut r = ring(0, 0);
    for d in descs {
        enqueue(&mut r, d.encoded_addr, d.len, d.cookie).unwrap();
    }
    r
}

fn drain(r: &mut RingBuffer) -> Vec<BuffDesc> {
    let mut out = Vec::new();
    while !ring_empty(r) {
        out.push(dequeue(r).unwrap());
    }
    out
}

fn handles(
    mux_free: RingBuffer,
    mux_used: RingBuffer,
    cli_free: RingBuffer,
    cli_used: RingBuffer,
) -> (RingHandle<fn()>, RingHandle<fn()>) {
    (
        ring_init(mux_free, mux_used, void as fn(), false),
        ring_init(cli_free, cli_used, void as fn(), false),
    )
}

#[test]
fn init_hands_the_multiplexer_all_buffers_that_fit() {
    let (mut handler, warnings) =
        init(ring(70, 12), ring(9, 9), ring(3, 1), ring(8, 8), void as fn());
    assert!(!handler.initialised);
    assert!(ring_full(&handler.rx_ring_mux.free));
    assert_eq!(handler.rx_ring_mux.free.read_idx(), 0);
    assert_eq!(handler.rx_ring_mux.used.write_idx(), 0);
    assert_eq!(handler.rx_ring_mux.used.read_idx(), 0);
    assert_eq!(handler.rx_ring_cli.free.write_idx(), 3);
    assert_eq!(handler.rx_ring_cli.free.read_idx(), 1);
    let given = drain(&mut handler.rx_ring_mux.free);
    assert_eq!(given.len(), NUM_BUFFERS - 1);
    for (i, d) in given.iter().enumerate() {
        assert_eq!(*d, desc(SHARED_DMA_MUX_START + BUF_SIZE * i, BUF_SIZE, 0));
    }
    assert_eq!(
        warnings,
        vec![Warning::EnqueueFailed {
            addr: SHARED_DMA_MUX_START + BUF_SIZE * (NUM_BUFFERS - 1),
            index: NUM_BUFFERS - 1,
            reason: "Trying to enqueue onto a full ring",
        }]
    );
}

#[test]
fn first_notification_only_starts_the_multiplexer() {
    let (mut handler, _) = init(ring(0, 0), ring(0, 0), ring(0, 0), ring(0, 0), void as fn());
    // the multiplexer takes a free buffer, fills it and queues it as used
    let taken = dequeue(&mut handler.rx_ring_mux.free).unwrap();
    enqueue(&mut handler.rx_ring_mux.used, taken.encoded_addr, 60, taken.cookie).unwrap();
    enqueue(&mut handler.rx_ring_cli.free, SHARED_DMA_CLIENT_START, BUF_SIZE, 6).unwrap();
    let reaction = handler.notified(CLIENT);
    assert!(handler.initialised);
    assert_eq!(reaction.enqueued, 0);
    assert!(reaction.warnings.is_empty());
    assert_eq!(reaction.signals, vec![Signal::Notify { channel: MUX_RX }]);
    assert_eq!(ring_size(&handler.rx_ring_mux.used), 1);
    assert_eq!(ring_size(&handler.rx_ring_cli.free), 1);

    let reaction = handler.notified(MUX_RX);
    assert_eq!(reaction.enqueued, 1);
    assert_eq!(drain(&mut handler.rx_ring_cli.used), vec![desc(SHARED_DMA_CLIENT_START, 60, 6)]);
}

#[test]
fn notification_on_another_channel_is_reported() {
    let (mut handler, _) = init(ring(0, 0), ring(0, 0), ring(0, 0), ring(0, 0), void as fn());
    handler.notified(MUX_RX);
    let reaction = handler.notified(7);
    assert_eq!(reaction.enqueued, 0);
    assert_eq!(reaction.warnings, vec![Warning::UnexpectedChannel { channel: 7 }]);
    assert!(reaction.signals.is_empty());
}

#[test]
fn copying_moves_as_many_buffers_as_both_sides_allow() {
    let mux_bufs = [desc(0x2_400_000, 60, 1), desc(0x2_400_800, 70, 2), desc(0x2_401_000, 80, 3)];
    let cli_bufs = [desc(SHARED_DMA_CLIENT_START, BUF_SIZE, 11), desc(0x10, 50, 12)];
    let (mut mux, mut cli) =
        handles(ring(0, 0), ring_of(&mux_bufs), ring_of(&cli_bufs), ring(0, 0));
    let reaction = process_rx_complete(&mut mux, &mut cli);
    assert_eq!(reaction.enqueued, 2);
    assert_eq!(
        reaction.warnings,
        vec![
            Warning::InsaneAddress { addr: 0x10 },
            Warning::ShortClientBuffer { client_len: 50, mux_len: 70 },
        ]
    );
    assert_eq!(
        reaction.signals,
        vec![
            Signal::NotifyQueue { channel: CLIENT },
            Signal::NotifyIfQueued { channel: CLIENT },
            Signal::NotifyQueue { channel: MUX_RX },
        ]
    );
    assert_eq!(
        drain(&mut cli.used),
        vec![desc(SHARED_DMA_CLIENT_START, 60, 11), desc(0x10, 70, 12)]
    );
    assert_eq!(
        drain(&mut mux.free),
        vec![desc(0x2_400_000, BUF_SIZE, 1), desc(0x2_400_800, BUF_SIZE, 2)]
    );
    assert_eq!(drain(&mut mux.used), vec![desc(0x2_401_000, 80, 3)]);
    assert!(ring_empty(&cli.free));
}

#[test]
fn copying_without_work_signals_nothing() {
    let (mut mux, mut cli) = handles(ring(0, 0), ring(4, 4), ring_of(&[desc(0x2_800_000, 9, 9)]), ring(0, 0));
    let reaction = process_rx_complete(&mut mux, &mut cli);
    assert_eq!(reaction.enqueued, 0);
    assert!(reaction.warnings.is_empty());
    assert!(reaction.signals.is_empty());
    assert_eq!(ring_size(&cli.free), 1);
}

#[test]
fn copying_stops_when_the_client_used_ring_is_full() {
    let mux_bufs = [desc(0x2_400_000, 60, 1), desc(0x2_400_800, 70, 2)];
    let cli_bufs = [desc(0x2_800_000, BUF_SIZE, 11), desc(0x2_800_800, BUF_SIZE, 12)];
    let (mut mux, mut cli) =
        handles(ring(5, 2), ring_of(&mux_bufs), ring_of(&cli_bufs), ring(510, 0));
    let reaction = process_rx_complete(&mut mux, &mut cli);
    assert_eq!(reaction.enqueued, 1);
    assert!(ring_full(&cli.used));
    assert_eq!(ring_size(&mux.used), 1);
    assert_eq!(ring_size(&mux.free), 4);
    // the client's used ring held descriptors already and the multiplexer's
    // free ring was neither empty nor its used ring full
    assert!(reaction.signals.is_empty());
}

#[test]
fn copying_signals_the_multiplexer_when_its_used_ring_was_full() {
    let mut mux_used = ring(0, 0);
    for i in 0..511usize {
        enqueue(&mut mux_used, 0x2_400_000 + i, 1, i).unwrap();
    }
    let (mut mux, mut cli) =
        handles(ring(7, 2), mux_used, ring_of(&[desc(0x2_800_000, BUF_SIZE, 1)]), ring(3, 1));
    let reaction = process_rx_complete(&mut mux, &mut cli);
    assert_eq!(reaction.enqueued, 1);
    assert_eq!(
        reaction.signals,
        vec![Signal::NotifyIfQueued { channel: CLIENT }, Signal::NotifyQueue { channel: MUX_RX }]
    );
}

#[test]
fn client_addresses_outside_its_region_are_reported() {
    for (addr, insane) in [
        (SHARED_DMA_CLIENT_START - 1, true),
        (SHARED_DMA_CLIENT_START, false),
        (SHARED_DMA_CLIENT_END - 1, false),
        (SHARED_DMA_CLIENT_END, true),
    ] {
        let (mut mux, mut cli) = handles(
            ring(0, 0),
            ring_of(&[desc(0x2_400_000, 10, 0)]),
            ring_of(&[desc(addr, 10, 0)]),
            ring(0, 0),
        );
        let reaction = process_rx_complete(&mut mux, &mut cli);
        let expected = if insane { vec![Warning::InsaneAddress { addr }] } else { vec![] };
        assert_eq!(reaction.warnings, expected);
    }
}

#[test]
fn readiness_check_refuses_disordered_indices_and_missing_addresses() {
    let (mux, cli) = handles(ring(0, 0), ring_of(&[desc(0x2_400_000, 1, 1)]), ring_of(&[desc(0x2_800_000, 1, 1)]), ring(0, 0));
    assert!(rx_rings_ready(&mux, &cli));

    let (mux, cli) = handles(ring(0, 0), ring(1, 2), ring(0, 0), ring(0, 0));
    assert!(!rx_rings_ready(&mux, &cli));

    let (mux, cli) = handles(ring(0, 0), ring(1, 0), ring_of(&[desc(0x2_800_000, 1, 1)]), ring(0, 0));
    assert!(!rx_rings_ready(&mux, &cli));

    // a zero address that the round would not reach is no obstacle
    let (mux, cli) = handles(ring(0, 0), ring_of(&[desc(0x2_400_000, 1, 1)]), ring_of(&[desc(0x2_800_000, 1, 1)]), ring(0, 0));
    let mut mux = mux;
    mux.used = RingBuffer::from_parts(2, 0, *mux.used.buffers());
    assert!(rx_rings_ready(&mux, &cli));
}

#[test]
fn readiness_check_refuses_a_round_that_would_overflow_an_index() {
    let (mux, cli) = handles(
        ring(u32::MAX, u32::MAX - 3),
        ring_of(&[desc(0x2_400_000, 1, 1)]),
        ring_of(&[desc(0x2_800_000, 1, 1)]),
        ring(0, 0),
    );
    assert!(!rx_rings_ready(&mux, &cli));
    let (mux, cli) = handles(
        ring(u32::MAX - 1, u32::MAX - 3),
        ring_of(&[desc(0x2_400_000, 1, 1)]),
        ring_of(&[desc(0x2_800_000, 1, 1)]),
        ring(0, 0),
    );
    assert!(rx_rings_ready(&mux, &cli));
}

#[test]
fn a_disordered_client_free_ring_is_not_looked_at_without_filled_buffers() {
    let (mux, cli) = handles(ring(0, 0), ring(6, 6), ring(1, 5), ring(0, 0));
    assert!(rx_rings_ready(&mux, &cli));
    let (mut handler, _) = init(ring(0, 0), ring(0, 0), ring(1, 5), ring(0, 0), void as fn());
    handler.notified(MUX_RX);
    let reaction = handler.notified(CLIENT);
    assert_eq!(reaction.enqueued, 0);
    assert!(reaction.signals.is_empty());
    assert_eq!(handler.rx_ring_cli.free.write_idx(), 1);
    assert_eq!(handler.rx_ring_cli.free.read_idx(), 5);
}

#[test]
fn a_round_reports_what_it_saw_and_moved() {
    let (mut mux, mut cli) = handles(
        ring(9, 4),
        ring_of(&[desc(0x2_400_000, 1, 1), desc(0x2_400_800, 1, 2)]),
        ring_of(&[desc(0x2_800_000, BUF_SIZE, 1), desc(0x2_800_800, BUF_SIZE, 2)]),
        ring(3, 3),
    );
    let reaction = process_rx_complete(&mut mux, &mut cli);
    assert_eq!(
        reaction.round,
        Some(Round {
            mux_was_full: false,
            mux_free_original_size: 5,
            cli_used_was_empty: true,
            enqueued: 2,
        })
    );
    assert_eq!(reaction.signals, vec![Signal::NotifyQueue { channel: CLIENT }]);
}

#[test]
fn the_multiplexer_is_signalled_when_its_free_ring_changed_meanwhile() {
    let round = Round { mux_was_full: false, mux_free_original_size: 5, cli_used_was_empty: false, enqueued: 2 };
    assert!(rx_signals(&round, 7).is_empty());
    assert_eq!(
        rx_signals(&round, 4),
        vec![Signal::NotifyIfQueued { channel: CLIENT }, Signal::NotifyQueue { channel: MUX_RX }]
    );
    let idle = Round { enqueued: 0, ..round };
    assert!(rx_signals(&idle, 4).is_empty());
    let empty_before = Round { mux_free_original_size: 0, cli_used_was_empty: true, ..round };
    assert_eq!(
        rx_signals(&empty_before, 2),
        vec![
            Signal::NotifyQueue { channel: CLIENT },
            Signal::NotifyIfQueued { channel: CLIENT },
            Signal::NotifyQueue { channel: MUX_RX },
        ]
    );
}

#[test]
fn a_round_lists_the_data_copies_in_order() {
    let mux_bufs = [desc(0x2_400_000, 60, 1), desc(0x2_400_800, 70, 2), desc(0x2_401_000, 80, 3)];
    let cli_bufs = [desc(0x2_800_000, BUF_SIZE, 11), desc(0x2_800_800, BUF_SIZE, 12)];
    let (mut mux, mut cli) =
        handles(ring(0, 0), ring_of(&mux_bufs), ring_of(&cli_bufs), ring(0, 0));
    let reaction = process_rx_complete(&mut mux, &mut cli);
    assert_eq!(
        reaction.copies,
        vec![
            PayloadCopy { src: 0x2_400_000, dst: 0x2_800_000, len: 60 },
            PayloadCopy { src: 0x2_400_800, dst: 0x2_800_800, len: 70 },
        ]
    );
}

#[test]
fn notifications_without_a_round_copy_nothing() {
    let (mut handler, _) = init(ring(0, 0), ring(0, 0), ring(0, 0), ring(0, 0), void as fn());
    assert!(handler.notified(CLIENT).copies.is_empty());
    assert!(handler.notified(9).copies.is_empty());
}
