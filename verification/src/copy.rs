//! The copy component: it hands the buffers that the receive multiplexer has
//! filled to a client, and gives the multiplexer its buffers back.

use vstd::prelude::*;
use crate::shared_ringbuffer::{
    BuffDesc, RingBuffer, RingHandle, RingState, RING_SIZE, dequeue_free, dequeue_used,
    enqueue_free, enqueue_used, ring_empty, ring_full, ring_init, ring_size, reset_indices,
    lemma_ring_slots_len, lemma_push_all_indices, lemma_push_all_appends, lemma_pop_n_skips,
};

verus! {

broadcast use lemma_ring_slots_len;

/// Channel on which the receive multiplexer is notified.
pub const MUX_RX: usize = 0;

/// Channel on which the client is notified.
pub const CLIENT: usize = 1;

/// Size of one DMA buffer.
pub const BUF_SIZE: usize = 2048;

/// Number of DMA buffers in each shared region.
pub const NUM_BUFFERS: usize = 512;

/// Size of a shared DMA region.
pub const SHARED_DMA_SIZE: usize = BUF_SIZE * NUM_BUFFERS;

/// Start of the DMA region shared with the multiplexer.
pub const SHARED_DMA_MUX_START: usize = 0x2_400_000;

/// Start of the DMA region shared with the client.
pub const SHARED_DMA_CLIENT_START: usize = 0x2_800_000;

/// End of the DMA region shared with the client.
pub const SHARED_DMA_CLIENT_END: usize = SHARED_DMA_CLIENT_START + SHARED_DMA_SIZE;

/// Something the copier reports instead of acting on it.
#[derive(Clone, Copy, Debug, PartialEq, Eq)]
pub enum Warning {
    /// A free buffer could not be given to the multiplexer at set-up.
    EnqueueFailed { addr: usize, index: usize, reason: &'static str },
    /// A client buffer lies outside the client's DMA region.
    InsaneAddress { addr: usize },
    /// A client buffer is shorter than the data copied into it.
    ShortClientBuffer { client_len: usize, mux_len: usize },
    /// A notification came on a channel that the copier does not serve.
    UnexpectedChannel { channel: usize },
}

/// A signal to another component, to be sent on a channel.
#[derive(Clone, Copy, Debug, PartialEq, Eq, Structural)]
pub enum Signal {
    /// Notify the channel now.
    Notify { channel: usize },
    /// Queue a notification on the channel, to be delivered later.
    NotifyQueue { channel: usize },
    /// Notify the channel now if a notification is queued on it, so that the
    /// queued one is not left waiting.
    NotifyIfQueued { channel: usize },
}

/// Packet data to copy: `len` bytes from the multiplexer's buffer at `src`
/// into the client's buffer at `dst`.
#[derive(Clone, Copy, Debug, PartialEq, Eq, Structural)]
pub struct PayloadCopy {
    pub src: usize,
    pub dst: usize,
    pub len: usize,
}

/// What a round of copying saw before it started, and how many buffers it
/// moved: what decides whom to signal after it.
#[derive(Clone, Copy, Debug, PartialEq, Eq, Structural)]
pub struct Round {
    /// The multiplexer's used ring was full.
    pub mux_was_full: bool,
    /// Number of descriptors in the multiplexer's free ring.
    pub mux_free_original_size: u32,
    /// The client's used ring was empty.
    pub cli_used_was_empty: bool,
    /// Number of buffers handed to the client.
    pub enqueued: u32,
}

/// What the copier did on a notification, and what it asks to be done.
#[derive(Debug)]
pub struct Reaction {
    /// Number of buffers handed to the client.
    pub enqueued: u32,
    /// The round of copying that ran, if one did.
    pub round: Option<Round>,
    /// The packet data to copy, one entry per buffer handed to the client, in
    /// order; each must be copied before the client's used ring is published.
    pub copies: Vec<PayloadCopy>,
    /// Reports, in the order in which they arose.
    pub warnings: Vec<Warning>,
    /// Signals to send, in this order.
    pub signals: Vec<Signal>,
}

/// The state of the copy component.
pub struct CopyHandler<N> {
    /// Rings shared with the receive multiplexer.
    pub rx_ring_mux: RingHandle<N>,
    /// Rings shared with the client.
    pub rx_ring_cli: RingHandle<N>,
    /// Whether the first notification has been propagated.
    pub initialised: bool,
}

/// How many descriptors a ring of the given size can still take before it is
/// full; a ring that already holds more than that never becomes full by
/// growing, and then `otherwise` stands for the room.
pub open spec fn room(size: int, otherwise: int) -> int {
    if size < RING_SIZE {
        RING_SIZE - 1 - size
    } else {
        otherwise
    }
}

/// The descriptor handed to the client's used ring for a filled
/// multiplexer buffer and a free client buffer.
pub open spec fn delivered_desc(mux: BuffDesc, cli: BuffDesc) -> BuffDesc {
    BuffDesc { encoded_addr: cli.encoded_addr, len: mux.len, cookie: cli.cookie }
}

/// The descriptor that gives a multiplexer buffer back to its free ring.
pub open spec fn recycled_desc(mux: BuffDesc) -> BuffDesc {
    BuffDesc { encoded_addr: mux.encoded_addr, len: BUF_SIZE, cookie: mux.cookie }
}

/// The descriptors handed to the client for the first `n` pairs.
pub open spec fn delivered(mux: Seq<BuffDesc>, cli: Seq<BuffDesc>, n: int) -> Seq<BuffDesc> {
    Seq::new(n as nat, |i: int| delivered_desc(mux[i], cli[i]))
}

/// The descriptors given back to the multiplexer for the first `n` buffers.
pub open spec fn recycled(mux: Seq<BuffDesc>, n: int) -> Seq<BuffDesc> {
    Seq::new(n as nat, |i: int| recycled_desc(mux[i]))
}

/// The data copies for the first `n` pairs: each multiplexer buffer's data
/// goes into the client buffer it is paired with.
pub open spec fn payload_copies(mux: Seq<BuffDesc>, cli: Seq<BuffDesc>, n: int) -> Seq<PayloadCopy> {
    Seq::new(
        n as nat,
        |i: int| PayloadCopy { src: mux[i].encoded_addr, dst: cli[i].encoded_addr, len: mux[i].len },
    )
}

/// A client buffer address outside the client's DMA region.
pub open spec fn is_insane_address(addr: usize) -> bool {
    addr == 0 || addr < SHARED_DMA_CLIENT_START || addr >= SHARED_DMA_CLIENT_END
}

/// The reports that copying one multiplexer buffer into one client buffer
/// gives rise to.
pub open spec fn pair_warnings(mux: BuffDesc, cli: BuffDesc) -> Seq<Warning> {
    let insane = if is_insane_address(cli.encoded_addr) {
        seq![Warning::InsaneAddress { addr: cli.encoded_addr }]
    } else {
        Seq::empty()
    };
    let short = if cli.len < mux.len {
        seq![Warning::ShortClientBuffer { client_len: cli.len, mux_len: mux.len }]
    } else {
        Seq::empty()
    };
    insane + short
}

/// The reports for the first `n` pairs, in order.
pub open spec fn transfer_warnings(mux: Seq<BuffDesc>, cli: Seq<BuffDesc>, n: nat) -> Seq<
    Warning,
>
    decreases n,
{
    if n == 0 {
        Seq::empty()
    } else {
        transfer_warnings(mux, cli, (n - 1) as nat) + pair_warnings(mux[n - 1], cli[n - 1])
    }
}

/// The four rings that a round of copying works on.
pub struct RxRings {
    pub mux_used: RingState,
    pub cli_free: RingState,
    pub mux_free: RingState,
    pub cli_used: RingState,
}

/// The rings of the multiplexer's and of the client's handle.
pub open spec fn rx_rings<N>(mux: RingHandle<N>, cli: RingHandle<N>) -> RxRings {
    RxRings { mux_used: mux.used@, cli_free: cli.free@, mux_free: mux.free@, cli_used: cli.used@ }
}

impl RxRings {
    /// Number of buffers that one round of copying moves: it goes on while
    /// the multiplexer's used ring and the client's free ring hold a
    /// descriptor and neither the multiplexer's free ring nor the client's
    /// used ring is full.
    pub open spec fn count(self) -> int {
        if self.mux_used.is_empty() {
            0
        } else {
            self.count_of_nonempty()
        }
    }

    /// The number of buffers moved when the multiplexer's used ring is not
    /// empty, so that the client's free ring is looked at.
    pub open spec fn count_of_nonempty(self) -> int {
        let a = self.mux_used.size();
        let b = self.cli_free.size();
        let c = room(self.mux_free.size(), a);
        let d = room(self.cli_used.size(), a);
        let ab = if a <= b { a } else { b };
        let cd = if c <= d { c } else { d };
        if ab <= cd { ab } else { cd }
    }

    /// The filled buffers queued by the multiplexer, oldest first.
    pub open spec fn mux_descs(self) -> Seq<BuffDesc> {
        self.mux_used.contents()
    }

    /// The free buffers queued by the client, oldest first.
    pub open spec fn cli_descs(self) -> Seq<BuffDesc> {
        self.cli_free.contents()
    }

    /// The rings admit a round of copying: the indices of every ring that the
    /// round looks at are ordered (the client's free ring is looked at only
    /// when the multiplexer's used ring holds a descriptor), every buffer
    /// that the round takes has an address, and no index overflows.
    pub open spec fn ready(self) -> bool {
        let n = self.count();
        &&& self.mux_used.read_idx <= self.mux_used.write_idx
        &&& !self.mux_used.is_empty() ==> self.cli_free.read_idx <= self.cli_free.write_idx
        &&& self.mux_free.read_idx <= self.mux_free.write_idx
        &&& self.cli_used.read_idx <= self.cli_used.write_idx
        &&& forall|i: int| 0 <= i < n ==> #[trigger] self.mux_descs()[i].encoded_addr != 0
        &&& forall|i: int| 0 <= i < n ==> #[trigger] self.cli_descs()[i].encoded_addr != 0
        &&& self.mux_free.write_idx + n <= u32::MAX
        &&& self.cli_used.write_idx + n <= u32::MAX
    }

    /// The four rings are valid.
    pub open spec fn all_valid(self) -> bool {
        &&& self.mux_used.is_valid()
        &&& self.cli_free.is_valid()
        &&& self.mux_free.is_valid()
        &&& self.cli_used.is_valid()
    }

    /// The rings after a round of copying.
    pub open spec fn transferred(self) -> RxRings {
        let n = self.count();
        RxRings {
            mux_used: self.mux_used.pop_n(n),
            cli_free: self.cli_free.pop_n(n),
            mux_free: self.mux_free.push_all(recycled(self.mux_descs(), n)),
            cli_used: self.cli_used.push_all(delivered(self.mux_descs(), self.cli_descs(), n)),
        }
    }

    /// The reports of a round of copying.
    pub open spec fn warnings(self) -> Seq<Warning> {
        transfer_warnings(self.mux_descs(), self.cli_descs(), self.count() as nat)
    }

    /// What the round sees before it starts, and how many buffers it moves.
    pub open spec fn round(self) -> Round {
        Round {
            mux_was_full: self.mux_used.is_full(),
            mux_free_original_size: self.mux_free.size() as u32,
            cli_used_was_empty: self.cli_used.is_empty(),
            enqueued: self.count() as u32,
        }
    }

    /// The signals sent after a round of copying, judged on the rings after
    /// the round: the multiplexer's free ring then holds exactly the buffers
    /// it held before and those given back.
    pub open spec fn signals(self) -> Seq<Signal> {
        round_signals(self.round(), self.mux_free.size() + self.count())
    }

    /// `reaction` is what a round of copying on these rings reports.
    pub open spec fn reported_by(self, reaction: Reaction) -> bool {
        &&& reaction.enqueued == self.count()
        &&& reaction.round == Some(self.round())
        &&& reaction.copies@ == payload_copies(self.mux_descs(), self.cli_descs(), self.count())
        &&& reaction.warnings@ == self.warnings()
        &&& reaction.signals@ == self.signals()
    }
}

/// The signals sent after `round`, when the multiplexer's free ring is found
/// to hold `mux_free_size` descriptors after it. The multiplexer is signalled
/// when its free ring was empty, or its used ring full, or the free ring does
/// not hold what the round left in it because the multiplexer took buffers
/// from it meanwhile; before that, a notification queued for the client is
/// delivered to it directly.
pub open spec fn round_signals(round: Round, mux_free_size: int) -> Seq<Signal> {
    let client = if round.cli_used_was_empty && round.enqueued > 0 {
        seq![Signal::NotifyQueue { channel: CLIENT }]
    } else {
        Seq::empty()
    };
    let mux = if (round.mux_free_original_size == 0 || round.mux_was_full
        || round.mux_free_original_size + round.enqueued != mux_free_size) && round.enqueued > 0 {
        seq![
            Signal::NotifyIfQueued { channel: CLIENT },
            Signal::NotifyQueue { channel: MUX_RX },
        ]
    } else {
        Seq::empty()
    };
    client + mux
}

/// Whom a round signals: the client's queued notification first when its
/// used ring was empty; the multiplexer last, with the client's queued
/// notification delivered just before, when its free ring was empty, its used
/// ring full, or its free ring changed besides the buffers given back; and
/// nothing when no buffer was moved.
pub proof fn lemma_round_signals(round: Round, mux_free_size: int)
    ensures
        // the client's queued notification comes first, when the client's
        // used ring was empty and buffers were moved
        (round.enqueued > 0 && round.cli_used_was_empty) ==> round_signals(round, mux_free_size)[0] == (Signal::NotifyQueue { channel: CLIENT }),
        // the multiplexer is signalled, after the client's queued notification
        // is delivered, when buffers were moved and its free ring was empty, or
        // its used ring full, or its free ring does not now hold exactly what
        // it held plus the buffers given back
        (round.enqueued > 0 && (round.mux_free_original_size == 0 || round.mux_was_full
            || round.mux_free_original_size + round.enqueued != mux_free_size)) ==> {
            &&& round_signals(round, mux_free_size).len() >= 2
            &&& round_signals(round, mux_free_size)[round_signals(round, mux_free_size).len() - 2] == (Signal::NotifyIfQueued { channel: CLIENT })
            &&& round_signals(round, mux_free_size)[round_signals(round, mux_free_size).len() - 1] == (Signal::NotifyQueue { channel: MUX_RX })
        },
        // and nothing else is signalled
        round_signals(round, mux_free_size).len() == (if round.enqueued > 0 && round.cli_used_was_empty { 1int } else { 0int }) + (
        if round.enqueued > 0 && (round.mux_free_original_size == 0 || round.mux_was_full
            || round.mux_free_original_size + round.enqueued != mux_free_size) {
            2int
        } else {
            0int
        }),
{
}

/// Decide whom to signal after `round`, given the number of descriptors that
/// the multiplexer's free ring holds after it.
pub fn rx_signals(round: &Round, mux_free_size: u32) -> (signals: Vec<Signal>)
    ensures
        signals@ == round_signals(*round, mux_free_size as int),
        // the client's queued notification comes first, when the client's
        // used ring was empty and buffers were moved
        (round.enqueued > 0 && round.cli_used_was_empty) ==> signals@[0] == (Signal::NotifyQueue { channel: CLIENT }),
        // the multiplexer is signalled, after the client's queued notification
        // is delivered, when buffers were moved and its free ring was empty, or
        // its used ring full, or its free ring does not now hold exactly what
        // it held plus the buffers given back
        (round.enqueued > 0 && (round.mux_free_original_size == 0 || round.mux_was_full
            || round.mux_free_original_size + round.enqueued != mux_free_size)) ==> {
            &&& signals@.len() >= 2
            &&& signals@[signals@.len() - 2] == (Signal::NotifyIfQueued { channel: CLIENT })
            &&& signals@[signals@.len() - 1] == (Signal::NotifyQueue { channel: MUX_RX })
        },
        // and nothing else is signalled
        signals@.len() == (if round.enqueued > 0 && round.cli_used_was_empty { 1int } else { 0int }) + (
        if round.enqueued > 0 && (round.mux_free_original_size == 0 || round.mux_was_full
            || round.mux_free_original_size + round.enqueued != mux_free_size) {
            2int
        } else {
            0int
        }),
{
    let mut signals: Vec<Signal> = Vec::new();
    if round.cli_used_was_empty && round.enqueued > 0 {
        signals.push(Signal::NotifyQueue { channel: CLIENT });
    }
    /* We only want to signal the mux if the free queue was
        empty and we enqueued something, or that the used queue was full and
        we dequeued something, OR
        potentially the mux pre-empted us (as it's higher prio) and emptied the queue
        while we were enqueuing, and thus the OG size and number of packets we
        processed doesn't add up and the mux could potentially miss this
        empty -> non-empty transition. */
    if (round.mux_free_original_size == 0 || round.mux_was_full
        || round.mux_free_original_size as u64 + round.enqueued as u64 != mux_free_size as u64)
        && round.enqueued > 0 {
        // We need to notify the client, but this should
        // happen first: a notification queued for it is delivered now.
        signals.push(Signal::NotifyIfQueued { channel: CLIENT });
        signals.push(Signal::NotifyQueue { channel: MUX_RX });
    }
    proof {
        assert(signals@ =~= round_signals(*round, mux_free_size as int));
    }
    signals
}

/// Whether the rings of the two handles admit a round of copying, that is,
/// whether `process_rx_complete` may be called on them.
pub fn rx_rings_ready<N>(rx_ring_mux: &RingHandle<N>, rx_ring_cli: &RingHandle<N>) -> (ready: bool)
    ensures
        ready == rx_rings(*rx_ring_mux, *rx_ring_cli).ready(),
{
    let ghost rings = rx_rings(*rx_ring_mux, *rx_ring_cli);
    let mux_used = &rx_ring_mux.used;
    let cli_free = &rx_ring_cli.free;
    let mux_free = &rx_ring_mux.free;
    let cli_used = &rx_ring_cli.used;
    if mux_used.read_idx() > mux_used.write_idx() || mux_free.read_idx() > mux_free.write_idx()
        || cli_used.read_idx() > cli_used.write_idx() {
        return false;
    }
    if mux_used.read_idx() == mux_used.write_idx() {
        // no round starts, and the client's free ring is not looked at
        return true;
    }
    if cli_free.read_idx() > cli_free.write_idx() {
        return false;
    }
    let a = ring_size(mux_used);
    let b = ring_size(cli_free);
    let c = ring_size(mux_free);
    let d = ring_size(cli_used);
    let room_c = if c < RING_SIZE { RING_SIZE - 1 - c } else { a };
    let room_d = if d < RING_SIZE { RING_SIZE - 1 - d } else { a };
    let ab = if a <= b { a } else { b };
    let cd = if room_c <= room_d { room_c } else { room_d };
    let n = if ab <= cd { ab } else { cd };
    assert(n == rings.count());
    if mux_free.write_idx() > u32::MAX - n || cli_used.write_idx() > u32::MAX - n {
        return false;
    }
    let mux_slots = mux_used.buffers();
    let cli_slots = cli_free.buffers();
    let mux_read = mux_used.read_idx();
    let cli_read = cli_free.read_idx();
    let mut i: u32 = 0;
    while i < n
        invariant
            rings == rx_rings(*rx_ring_mux, *rx_ring_cli),
            n == rings.count(),
            n <= a,
            n <= b,
            a == rings.mux_used.size(),
            b == rings.cli_free.size(),
            rings.mux_used.read_idx <= rings.mux_used.write_idx,
            rings.cli_free.read_idx <= rings.cli_free.write_idx,
            mux_read == rings.mux_used.read_idx,
            cli_read == rings.cli_free.read_idx,
            mux_slots@ == rings.mux_used.slots,
            cli_slots@ == rings.cli_free.slots,
            i <= n,
            forall|j: int| 0 <= j < i ==> #[trigger] rings.mux_descs()[j].encoded_addr != 0,
            forall|j: int| 0 <= j < i ==> #[trigger] rings.cli_descs()[j].encoded_addr != 0,
        decreases n - i,
    {
        let mux_desc = mux_slots[((mux_read + i) % RING_SIZE) as usize];
        let cli_desc = cli_slots[((cli_read + i) % RING_SIZE) as usize];
        assert(mux_desc == rings.mux_descs()[i as int]);
        assert(cli_desc == rings.cli_descs()[i as int]);
        if mux_desc.encoded_addr == 0 || cli_desc.encoded_addr == 0 {
            return false;
        }
        i = i + 1;
    }
    true
}

/// What each pair moved by a round gives, in terms of the rings' indices
/// and slots: the copy of the multiplexer buffer's data into the client
/// buffer, the client buffer queued as used with the data's length, and the
/// multiplexer buffer given back whole; the rings taken from advance their
/// read indices, and those filled their write indices, by the number moved.
pub proof fn lemma_round_moves_pairs(rings: RxRings)
    requires
        rings.ready(),
        rings.mux_used.slots.len() == RING_SIZE,
        rings.cli_free.slots.len() == RING_SIZE,
        rings.mux_free.slots.len() == RING_SIZE,
        rings.cli_used.slots.len() == RING_SIZE,
    ensures
        ({
            let n = rings.count();
            let mu = rings.mux_used;
            let cf = rings.cli_free;
            let mf = rings.mux_free;
            let cu = rings.cli_used;
            let after = rings.transferred();
            let copies = payload_copies(rings.mux_descs(), rings.cli_descs(), n);
            &&& copies.len() == n
            &&& after.mux_used.read_idx == mu.read_idx + n
            &&& after.cli_free.read_idx == cf.read_idx + n
            &&& after.mux_free.write_idx == mf.write_idx + n
            &&& after.cli_used.write_idx == cu.write_idx + n
            &&& after.mux_used.write_idx == mu.write_idx
            &&& after.cli_free.write_idx == cf.write_idx
            &&& after.mux_free.read_idx == mf.read_idx
            &&& after.cli_used.read_idx == cu.read_idx
            &&& forall|k: int|
                0 <= k < n ==> #[trigger] copies[k] == (PayloadCopy {
                    src: mu.slots[(mu.read_idx + k) % 512].encoded_addr,
                    dst: cf.slots[(cf.read_idx + k) % 512].encoded_addr,
                    len: mu.slots[(mu.read_idx + k) % 512].len,
                })
        }),
{
    let n = rings.count();
    lemma_push_all_indices(rings.mux_free, recycled(rings.mux_descs(), n));
    lemma_push_all_indices(rings.cli_used, delivered(rings.mux_descs(), rings.cli_descs(), n));
}

/// On valid rings, a round writes, for its `k`-th pair, the client buffer
/// with the data's length into the `k`-th slot after the client used ring's
/// write index, and the multiplexer buffer with its full length into the
/// `k`-th slot after the multiplexer free ring's write index.
pub proof fn lemma_round_fills_slots(rings: RxRings, k: int)
    requires
        rings.ready(),
        rings.all_valid(),
        0 <= k < rings.count(),
    ensures
        ({
            let mu = rings.mux_used;
            let cf = rings.cli_free;
            let m = mu.slots[(mu.read_idx + k) % 512];
            let c = cf.slots[(cf.read_idx + k) % 512];
            let after = rings.transferred();
            &&& after.cli_used.slots[(rings.cli_used.write_idx + k) % 512] == (BuffDesc {
                encoded_addr: c.encoded_addr,
                len: m.len,
                cookie: c.cookie,
            })
            &&& after.mux_free.slots[(rings.mux_free.write_idx + k) % 512] == (BuffDesc {
                encoded_addr: m.encoded_addr,
                len: BUF_SIZE,
                cookie: m.cookie,
            })
        }),
{
    let n = rings.count();
    let ms = rings.mux_descs();
    let cs = rings.cli_descs();
    lemma_push_all_appends(rings.mux_free, recycled(ms, n));
    lemma_push_all_appends(rings.cli_used, delivered(ms, cs, n));
    let after = rings.transferred();
    assert(after.cli_used.contents()[rings.cli_used.size() + k] == delivered(ms, cs, n)[k]);
    assert(after.mux_free.contents()[rings.mux_free.size() + k] == recycled(ms, n)[k]);
}

/// What a round records of the rings before it starts: whether the
/// multiplexer's used ring held 511 descriptors, how many its free ring held,
/// and whether the client's used ring was empty.
pub proof fn lemma_round_records(rings: RxRings)
    requires
        rings.ready(),
    ensures
        rings.round() == (Round {
            mux_was_full: rings.mux_used.write_idx - rings.mux_used.read_idx == RING_SIZE - 1,
            mux_free_original_size: (rings.mux_free.write_idx - rings.mux_free.read_idx) as u32,
            cli_used_was_empty: rings.cli_used.write_idx == rings.cli_used.read_idx,
            enqueued: rings.count() as u32,
        }),
{
}

/// A round moves as many buffers as it can: no more than the multiplexer's
/// used ring holds, nor (when that ring is not empty) than the client's free
/// ring holds, nor than the room left in the multiplexer's free ring and the
/// client's used ring; and it stops at the first of these limits.
pub proof fn lemma_round_count(rings: RxRings)
    requires
        rings.ready(),
    ensures
        ({
            let a = rings.mux_used.write_idx - rings.mux_used.read_idx;
            let b = rings.cli_free.write_idx - rings.cli_free.read_idx;
            let c = rings.mux_free.write_idx - rings.mux_free.read_idx;
            let d = rings.cli_used.write_idx - rings.cli_used.read_idx;
            let n = rings.count();
            &&& 0 <= n <= a
            &&& a > 0 ==> n <= b
            &&& c < RING_SIZE ==> c + n <= RING_SIZE - 1
            &&& d < RING_SIZE ==> d + n <= RING_SIZE - 1
            &&& n == a || (a > 0 && n == b) || (c < RING_SIZE && c + n == RING_SIZE - 1) || (d
                < RING_SIZE && d + n == RING_SIZE - 1)
        }),
{
}

/// The reports on one pair: an insane address when the client buffer lies
/// outside the client's DMA region, then a short buffer when the client
/// buffer is shorter than the data; nothing else.
pub proof fn lemma_pair_warnings(mux: BuffDesc, cli: BuffDesc)
    ensures
        ({
            let ws = pair_warnings(mux, cli);
            let insane = cli.encoded_addr < SHARED_DMA_CLIENT_START || cli.encoded_addr
                >= SHARED_DMA_CLIENT_START + SHARED_DMA_SIZE;
            let short = cli.len < mux.len;
            &&& ws.len() == (if insane { 1int } else { 0int }) + (if short { 1int } else { 0int })
            &&& insane ==> ws[0] == (Warning::InsaneAddress { addr: cli.encoded_addr })
            &&& short ==> ws[ws.len() - 1] == (Warning::ShortClientBuffer {
                client_len: cli.len,
                mux_len: mux.len,
            })
        }),
{
}

/// The reports of a round come pair by pair, in the order of the pairs: those
/// of the first `n + 1` pairs are those of the first `n` followed by those of
/// pair `n`; there are none for no pair.
pub proof fn lemma_warnings_in_pair_order(mux: Seq<BuffDesc>, cli: Seq<BuffDesc>, n: nat)
    ensures
        transfer_warnings(mux, cli, 0).len() == 0,
        ({
            let before = transfer_warnings(mux, cli, n);
            let after = transfer_warnings(mux, cli, n + 1);
            &&& after.len() == before.len() + pair_warnings(mux[n as int], cli[n as int]).len()
            &&& after.subrange(0, before.len() as int) == before
            &&& after.subrange(before.len() as int, after.len() as int) == pair_warnings(
                mux[n as int],
                cli[n as int],
            )
        }),
{
    let before = transfer_warnings(mux, cli, n);
    let after = transfer_warnings(mux, cli, n + 1);
    assert(after.subrange(0, before.len() as int) =~= before);
    assert(after.subrange(before.len() as int, after.len() as int) =~= pair_warnings(
        mux[n as int],
        cli[n as int],
    ));
}

/// The buffers first handed to the multiplexer: the `i`-th is the `i`-th
/// `BUF_SIZE` piece of its DMA region, whole and with no cookie.
pub proof fn lemma_initial_free_descs(n: int, i: int)
    requires
        0 <= i < n <= NUM_BUFFERS,
    ensures
        initial_free_descs(n).len() == n,
        initial_free_descs(n)[i] == (BuffDesc {
            encoded_addr: (SHARED_DMA_MUX_START + BUF_SIZE * i) as usize,
            len: BUF_SIZE,
            cookie: 0,
        }),
        SHARED_DMA_MUX_START <= initial_free_descs(n)[i].encoded_addr,
        initial_free_descs(n)[i].encoded_addr + BUF_SIZE <= SHARED_DMA_MUX_START + SHARED_DMA_SIZE,
{
}

/// Move the buffers that the multiplexer has filled to the client, and give
/// the multiplexer's buffers back to it. Buffers are only moved while every
/// dequeue and enqueue of the move will succeed.
pub fn process_rx_complete<N>(rx_ring_mux: &mut RingHandle<N>, rx_ring_cli: &mut RingHandle<N>) -> (reaction: Reaction)
    requires
        rx_rings(*old(rx_ring_mux), *old(rx_ring_cli)).ready(),
    ensures
        rx_rings(*final(rx_ring_mux), *final(rx_ring_cli)) == rx_rings(*old(rx_ring_mux), *old(rx_ring_cli)).transferred(),
        rx_rings(*old(rx_ring_mux), *old(rx_ring_cli)).reported_by(reaction),
        final(rx_ring_mux).notify == old(rx_ring_mux).notify,
        final(rx_ring_cli).notify == old(rx_ring_cli).notify,
        // the round stops only where one more move could not complete
        final(rx_ring_mux).used@.is_empty() || final(rx_ring_cli).free@.is_empty()
            || final(rx_ring_mux).free@.is_full() || final(rx_ring_cli).used@.is_full(),
        // no buffer is lost or made up on either side
        final(rx_ring_mux).used@.size() + final(rx_ring_mux).free@.size() == old(rx_ring_mux).used@.size()
            + old(rx_ring_mux).free@.size(),
        final(rx_ring_cli).used@.size() + final(rx_ring_cli).free@.size() == old(rx_ring_cli).used@.size()
            + old(rx_ring_cli).free@.size(),
        ({
            let rings = rx_rings(*old(rx_ring_mux), *old(rx_ring_cli));
            let n = rings.count();
            let ms = rings.mux_descs();
            let cs = rings.cli_descs();
            rings.all_valid() ==> {
                &&& rx_rings(*final(rx_ring_mux), *final(rx_ring_cli)).all_valid()
                &&& final(rx_ring_mux).used@.contents() == ms.skip(n)
                &&& final(rx_ring_cli).free@.contents() == cs.skip(n)
                &&& final(rx_ring_mux).free@.contents() == rings.mux_free.contents() + recycled(ms, n)
                &&& final(rx_ring_cli).used@.contents() == rings.cli_used.contents() + delivered(ms, cs, n)
            }
        }),
{
    let ghost rings = rx_rings(*rx_ring_mux, *rx_ring_cli);
    let ghost mux_used = rings.mux_used;
    let ghost cli_free = rings.cli_free;
    let ghost mux_free = rings.mux_free;
    let ghost cli_used = rings.cli_used;
    let ghost n = rings.count();
    let ghost ms = rings.mux_descs();
    let ghost cs = rings.cli_descs();

    let mux_was_full = ring_full(&rx_ring_mux.used);
    let mux_free_original_size = ring_size(&rx_ring_mux.free);
    let cli_used_was_empty = ring_empty(&rx_ring_cli.used);
    let mut enqueued: u32 = 0;
    let mut warnings: Vec<Warning> = Vec::new();
    let mut copies: Vec<PayloadCopy> = Vec::new();
    // We only want to copy buffers if all the dequeues and enqueues will be successful
    while !ring_empty(&rx_ring_mux.used) && !ring_empty(&rx_ring_cli.free) && !ring_full(
        &rx_ring_mux.free,
    ) && !ring_full(&rx_ring_cli.used)
        invariant
            rings.ready(),
            n == rings.count(),
            mux_used == rings.mux_used,
            cli_free == rings.cli_free,
            mux_free == rings.mux_free,
            cli_used == rings.cli_used,
            ms == rings.mux_descs(),
            cs == rings.cli_descs(),
            0 <= enqueued <= n,
            rx_ring_mux.used@ == mux_used.pop_n(enqueued as int),
            rx_ring_cli.free@ == cli_free.pop_n(enqueued as int),
            rx_ring_mux.free@ == mux_free.push_all(recycled(ms, enqueued as int)),
            rx_ring_cli.used@ == cli_used.push_all(delivered(ms, cs, enqueued as int)),
            rx_ring_mux.free@.write_idx == mux_free.write_idx + enqueued,
            rx_ring_mux.free@.read_idx == mux_free.read_idx,
            rx_ring_cli.used@.write_idx == cli_used.write_idx + enqueued,
            rx_ring_cli.used@.read_idx == cli_used.read_idx,
            rx_ring_mux.notify == old(rx_ring_mux).notify,
            rx_ring_cli.notify == old(rx_ring_cli).notify,
            warnings@ == transfer_warnings(ms, cs, enqueued as nat),
            copies@ == payload_copies(ms, cs, enqueued as int),
        decreases n - enqueued,
    {
        let ghost j = enqueued as int;
        proof {
            assert(ms[j] == mux_used.pop_n(j).front());
            assert(cs[j] == cli_free.pop_n(j).front());
        }
        let mux_desc = dequeue_used(rx_ring_mux).unwrap();
        let mux_addr = mux_desc.encoded_addr;
        let mux_len = mux_desc.len;
        let mux_cookie = mux_desc.cookie;
        // get a free one from clients queue.
        let client_desc = dequeue_free(rx_ring_cli).unwrap();
        let client_addr = client_desc.encoded_addr;
        let client_len = client_desc.len;
        let client_cookie = client_desc.cookie;
        let ghost before = warnings@;
        if client_addr == 0 || client_addr < SHARED_DMA_CLIENT_START || client_addr
            >= SHARED_DMA_CLIENT_END {
            warnings.push(Warning::InsaneAddress { addr: client_addr });
        }
        if client_len < mux_len {
            warnings.push(Warning::ShortClientBuffer { client_len: client_len, mux_len: mux_len });
        }
        proof {
            assert(warnings@ =~= before + pair_warnings(ms[j], cs[j]));
        }
        // copy the data over to the clients address space.
        copies.push(PayloadCopy { src: mux_addr, dst: client_addr, len: mux_len });

        /* Now that we've copied the data, enqueue the buffer to the client's used ring. */
        let _ = enqueue_used(rx_ring_cli, client_addr, mux_len, client_cookie);
        /* enqueue the old buffer back to dev_rx_ring.free so the driver can use it again. */
        let _ = enqueue_free(rx_ring_mux, mux_addr, BUF_SIZE, mux_cookie);

        proof {
            assert(recycled(ms, j + 1).drop_last() =~= recycled(ms, j));
            assert(copies@ =~= payload_copies(ms, cs, j + 1));
            assert(delivered(ms, cs, j + 1).drop_last() =~= delivered(ms, cs, j));
            assert(mux_used.pop_n(j).pop() == mux_used.pop_n(j + 1));
            assert(cli_free.pop_n(j).pop() == cli_free.pop_n(j + 1));
        }
        enqueued += 1;
    }

    let round = Round {
        mux_was_full: mux_was_full,
        mux_free_original_size: mux_free_original_size,
        cli_used_was_empty: cli_used_was_empty,
        enqueued: enqueued,
    };
    let signals = rx_signals(&round, ring_size(&rx_ring_mux.free));
    proof {
        lemma_pop_n_skips(mux_used, n);
        if !mux_used.is_empty() {
            lemma_pop_n_skips(cli_free, n);
        }
        if rings.all_valid() {
            lemma_push_all_appends(mux_free, recycled(ms, n));
            lemma_push_all_appends(cli_used, delivered(ms, cs, n));
        }
    }
    Reaction { enqueued, round: Some(round), copies, warnings, signals }
}

/// The descriptor of the `i`-th buffer of the multiplexer's DMA region,
/// as it is first handed to the multiplexer.
pub open spec fn initial_free_desc(i: int) -> BuffDesc {
    BuffDesc { encoded_addr: (SHARED_DMA_MUX_START + BUF_SIZE * i) as usize, len: BUF_SIZE, cookie: 0 }
}

/// The descriptors of the first `n` buffers of the multiplexer's DMA region.
pub open spec fn initial_free_descs(n: int) -> Seq<BuffDesc> {
    Seq::new(n as nat, |i: int| initial_free_desc(i))
}

/// Set up the rings shared between the receive multiplexer and the client,
/// and give the multiplexer the buffers of its DMA region. The multiplexer's
/// rings are initialised here; the client initialises its own. The free ring
/// takes one buffer less than the region holds, and the buffer that does not
/// fit is reported.
pub fn init<N: Copy>(
    free_mux: RingBuffer,
    used_mux: RingBuffer,
    free_cli: RingBuffer,
    used_cli: RingBuffer,
    notify: N,
) -> (result: (CopyHandler<N>, Vec<Warning>))
    ensures
        ({
            let (handler, warnings) = result;
            &&& !handler.initialised
            &&& handler.rx_ring_mux.notify == notify
            &&& handler.rx_ring_cli.notify == notify
            &&& handler.rx_ring_mux.free@ == reset_indices(free_mux@).push_all(
                initial_free_descs(RING_SIZE - 1),
            )
            &&& handler.rx_ring_mux.free@.is_valid()
            &&& handler.rx_ring_mux.free@.is_full()
            &&& handler.rx_ring_mux.free@.contents() == initial_free_descs(RING_SIZE - 1)
            &&& handler.rx_ring_mux.used@ == reset_indices(used_mux@)
            &&& handler.rx_ring_cli.free@ == free_cli@
            &&& handler.rx_ring_cli.used@ == used_cli@
            &&& warnings@.len() == 1
            &&& warnings@[0] matches Warning::EnqueueFailed { addr, index, reason }
            &&& addr == initial_free_desc(NUM_BUFFERS - 1).encoded_addr
            &&& index == NUM_BUFFERS - 1
            &&& reason@ == "Trying to enqueue onto a full ring"@
        }),
{
    /* Set up ring buffers shared between the RX multiplexor and the client. */
    let mut rx_ring_mux = ring_init(free_mux, used_mux, notify, true);
    /* For the client shared rings, we are trusting the client will initialise the write_idx and read_idx. */
    let rx_ring_cli = ring_init(free_cli, used_cli, notify, false);
    let ghost start = reset_indices(free_mux@);
    let mut warnings: Vec<Warning> = Vec::new();

    /* Enqueue free buffers for the mux to access */
    let mut i: usize = 0;
    while i < NUM_BUFFERS
        invariant
            i <= NUM_BUFFERS,
            start == reset_indices(free_mux@),
            start.slots.len() == RING_SIZE,
            rx_ring_mux.free@ == start.push_all(
                initial_free_descs(if i < RING_SIZE { i as int } else { RING_SIZE - 1 }),
            ),
            rx_ring_mux.used@ == reset_indices(used_mux@),
            rx_ring_mux.notify == notify,
            rx_ring_cli.free@ == free_cli@,
            rx_ring_cli.used@ == used_cli@,
            rx_ring_cli.notify == notify,
            i < NUM_BUFFERS ==> warnings@.len() == 0,
            i == NUM_BUFFERS ==> {
                &&& warnings@.len() == 1
                &&& warnings@[0] matches Warning::EnqueueFailed { addr, index, reason }
                &&& addr == initial_free_desc(NUM_BUFFERS - 1).encoded_addr
                &&& index == NUM_BUFFERS - 1
                &&& reason@ == "Trying to enqueue onto a full ring"@
            },
        decreases NUM_BUFFERS - i,
    {
        let ghost filled = initial_free_descs(i as int);
        proof {
            lemma_push_all_indices(start, filled);
            lemma_push_all_appends(start, filled);
        }
        let addr = SHARED_DMA_MUX_START + (BUF_SIZE * i);
        let res = enqueue_free(&mut rx_ring_mux, addr, BUF_SIZE, 0);
        match res {
            Ok(()) => {
                proof {
                    assert(initial_free_descs(i + 1).drop_last() =~= filled);
                }
            },
            Err(reason) => {
                warnings.push(Warning::EnqueueFailed { addr: addr, index: i, reason: reason });
            },
        }
        i = i + 1;
    }
    proof {
        lemma_push_all_appends(start, initial_free_descs(RING_SIZE - 1));
        lemma_push_all_indices(start, initial_free_descs(RING_SIZE - 1));
    }

    (CopyHandler { rx_ring_mux, rx_ring_cli, initialised: false }, warnings)
}

/// The copier serves notifications from the client and the multiplexer.
pub open spec fn serves(channel: usize) -> bool {
    channel == CLIENT || channel == MUX_RX
}

/// The state of the copier as plain values.
pub struct CopierState {
    pub initialised: bool,
    pub rings: RxRings,
}

impl CopierState {
    /// The state after a notification on `channel`.
    pub open spec fn next(self, channel: usize) -> CopierState {
        if self.initialised && serves(channel) {
            CopierState { initialised: true, rings: self.rings.transferred() }
        } else {
            CopierState { initialised: true, rings: self.rings }
        }
    }

    /// The signals sent on a notification on `channel`.
    pub open spec fn signals_on(self, channel: usize) -> Seq<Signal> {
        if !self.initialised {
            seq![Signal::Notify { channel: MUX_RX }]
        } else if serves(channel) {
            self.rings.signals()
        } else {
            Seq::empty()
        }
    }

    /// The state after notifications on each of `channels`, in order.
    pub open spec fn run(self, channels: Seq<usize>) -> CopierState
        decreases channels.len(),
    {
        if channels.len() == 0 {
            self
        } else {
            self.run(channels.drop_last()).next(channels.last())
        }
    }
}

/// After a round, the multiplexer is never notified directly.
pub proof fn lemma_round_signals_queue_for_mux(round: Round, mux_free_size: int)
    ensures
        !round_signals(round, mux_free_size).contains(Signal::Notify { channel: MUX_RX }),
{
    let signals = round_signals(round, mux_free_size);
    if signals.contains(Signal::Notify { channel: MUX_RX }) {
        let k = choose|k: int| 0 <= k < signals.len() && signals[k] == Signal::Notify { channel: MUX_RX };
        assert(signals[k] != Signal::Notify { channel: MUX_RX });
    }
}

/// Any sequence of notifications of a copier that has not started: the first
/// one leaves the rings alone, marks the copier started and is the only one
/// on which the multiplexer is notified directly; the copier stays started,
/// and the rings change only on notifications that come after the first.
pub proof fn lemma_notifications_in_sequence(start: CopierState, channels: Seq<usize>)
    requires
        !start.initialised,
    ensures
        channels.len() > 0 ==> start.run(channels).initialised,
        channels.len() > 0 ==> start.run(channels.take(1)).rings == start.rings,
        channels.len() > 0 ==> start.signals_on(channels[0]).contains(
            Signal::Notify { channel: MUX_RX },
        ),
        forall|i: int|
            1 <= i < channels.len() ==> !(#[trigger] start.run(channels.take(i)).signals_on(
                channels[i],
            )).contains(Signal::Notify { channel: MUX_RX }),
    decreases channels.len(),
{
    if channels.len() > 0 {
        let prefix = channels.drop_last();
        lemma_notifications_in_sequence(start, prefix);
        let first = channels.take(1);
        assert(first.drop_last() =~= Seq::<usize>::empty());
        assert(start.run(first.drop_last()) == start);
        assert(start.run(first) == start.next(first.last()));
        assert(channels.drop_last() =~= channels.take(channels.len() - 1));
        assert(seq![Signal::Notify { channel: MUX_RX }][0] == Signal::Notify { channel: MUX_RX });
        assert forall|i: int| 1 <= i < channels.len() implies !(#[trigger] start.run(
            channels.take(i),
        ).signals_on(channels[i])).contains(Signal::Notify { channel: MUX_RX }) by {
            let before = start.run(channels.take(i));
            assert(channels.take(i).drop_last() =~= channels.take(i - 1));
            assert(channels.take(i).len() > 0);
            lemma_started_after_one(start, channels.take(i));
            if serves(channels[i]) {
                lemma_round_signals_queue_for_mux(
                    before.rings.round(),
                    before.rings.mux_free.size() + before.rings.count(),
                );
            }
        }
    }
}

/// A copier that has had a notification is started.
pub proof fn lemma_started_after_one(start: CopierState, channels: Seq<usize>)
    requires
        channels.len() > 0,
    ensures
        start.run(channels).initialised,
{
}

impl<N> CopyHandler<N> {
    /// The rings that a round of copying works on.
    pub open spec fn rings(self) -> RxRings {
        rx_rings(self.rx_ring_mux, self.rx_ring_cli)
    }

    /// The copier's state as plain values.
    pub open spec fn state(self) -> CopierState {
        CopierState { initialised: self.initialised, rings: self.rings() }
    }

    /// React to a notification on `channel`. The first notification is only
    /// passed on to the multiplexer, so that the components start in order;
    /// after that, a notification from the client or the multiplexer runs a
    /// round of copying, and one on any other channel is reported.
    pub fn notified(&mut self, channel: usize) -> (reaction: Reaction)
        requires
            old(self).initialised && (channel == CLIENT || channel == MUX_RX) ==> old(
                self,
            ).rings().ready(),
        ensures
            final(self).state() == old(self).state().next(channel),
            reaction.signals@ == old(self).state().signals_on(channel),
            final(self).initialised,
            // the multiplexer is notified directly on the first notification only
            reaction.signals@.contains(Signal::Notify { channel: MUX_RX }) <==> !old(
                self,
            ).initialised,
            final(self).rx_ring_mux.notify == old(self).rx_ring_mux.notify,
            final(self).rx_ring_cli.notify == old(self).rx_ring_cli.notify,
            !old(self).initialised ==> {
                &&& final(self).rings() == old(self).rings()
                &&& reaction.enqueued == 0
                &&& reaction.round is None
                &&& reaction.copies@ == Seq::<PayloadCopy>::empty()
                &&& reaction.warnings@ == Seq::<Warning>::empty()
                &&& reaction.signals@ == seq![Signal::Notify { channel: MUX_RX }]
            },
            old(self).initialised && (channel == CLIENT || channel == MUX_RX) ==> {
                &&& final(self).rings() == old(self).rings().transferred()
                &&& old(self).rings().reported_by(reaction)
            },
            old(self).initialised && !(channel == CLIENT || channel == MUX_RX) ==> {
                &&& final(self).rings() == old(self).rings()
                &&& reaction.enqueued == 0
                &&& reaction.round is None
                &&& reaction.copies@ == Seq::<PayloadCopy>::empty()
                &&& reaction.warnings@ == seq![Warning::UnexpectedChannel { channel }]
                &&& reaction.signals@ == Seq::<Signal>::empty()
            },
    {
        if !self.initialised {
            /*
             * Propogate this down the line to ensure everyone is
             * initliased in correct order.
             */
            self.initialised = true;
            let reaction = Reaction {
                enqueued: 0,
                round: None,
                copies: Vec::new(),
                warnings: Vec::new(),
                signals: vec![Signal::Notify { channel: MUX_RX }],
            };
            proof {
                assert(reaction.signals@ =~= seq![Signal::Notify { channel: MUX_RX }]);
            }
            return reaction;
        }
        if channel == CLIENT || channel == MUX_RX {
            let reaction = process_rx_complete(&mut self.rx_ring_mux, &mut self.rx_ring_cli);
            proof {
                let signals = reaction.signals@;
                if signals.contains(Signal::Notify { channel: MUX_RX }) {
                    let k = choose|k: int|
                        0 <= k < signals.len() && signals[k] == Signal::Notify { channel: MUX_RX };
                    assert(signals[k] != Signal::Notify { channel: MUX_RX });
                }
            }
            reaction
        } else {
            let reaction = Reaction {
                enqueued: 0,
                round: None,
                copies: Vec::new(),
                warnings: vec![Warning::UnexpectedChannel { channel: channel }],
                signals: Vec::new(),
            };
            proof {
                assert(reaction.warnings@ =~= seq![Warning::UnexpectedChannel { channel }]);
            }
            reaction
        }
    }
}

/// A notification callback that does nothing.
pub fn void() {
}

} // verus!
