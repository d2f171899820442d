use vstd::prelude::*;

verus! {

/// Number of descriptor slots in a ring buffer.
pub const RING_SIZE: u32 = 512;

/// Number of descriptor slots in a ring buffer, as an array length.
pub const RING_SLOTS: usize = 512;

/// Buffer descriptor
#[derive(Clone, Copy, Debug, PartialEq, Eq, Structural)]
pub struct BuffDesc {
    /// Encoded DMA address
    pub encoded_addr: usize,
    /// Associated memory lengths
    pub len: usize,
    /// Index into client side metadata
    pub cookie: usize,
}

/// Circular buffer containing descriptors
pub struct RingBuffer {
    write_idx: u32,
    read_idx: u32,
    buffers: [BuffDesc; RING_SLOTS],
}

/// The state of a ring buffer as plain values: its two free-running
/// indices and the contents of its slots.
pub struct RingState {
    pub write_idx: u32,
    pub read_idx: u32,
    pub slots: Seq<BuffDesc>,
}

/// The slot that a free-running index designates.
pub open spec fn slot_of(idx: int) -> int {
    idx % (RING_SIZE as int)
}

impl RingState {
    /// Number of descriptors between the read and the write index.
    pub open spec fn size(self) -> int {
        self.write_idx - self.read_idx
    }

    /// The ring holds no descriptor.
    pub open spec fn is_empty(self) -> bool {
        self.size() == 0
    }

    /// The ring holds as many descriptors as it may.
    pub open spec fn is_full(self) -> bool {
        self.size() == RING_SIZE - 1
    }

    /// The indices are ordered and the ring holds no more descriptors than
    /// it has room for, so that no two queued descriptors share a slot.
    pub open spec fn is_valid(self) -> bool {
        &&& self.slots.len() == RING_SIZE
        &&& self.read_idx <= self.write_idx
        &&& self.size() < RING_SIZE
    }

    /// The descriptors queued in the ring, oldest first.
    pub open spec fn contents(self) -> Seq<BuffDesc> {
        Seq::new(
            (self.write_idx - self.read_idx) as nat,
            |i: int| self.slots[slot_of(self.read_idx + i)],
        )
    }

    /// The descriptor that the next dequeue hands out.
    pub open spec fn front(self) -> BuffDesc {
        self.slots[slot_of(self.read_idx as int)]
    }

    /// The state after `desc` is written at the write index and the write
    /// index advances.
    pub open spec fn push(self, desc: BuffDesc) -> RingState {
        RingState {
            write_idx: (self.write_idx + 1) as u32,
            read_idx: self.read_idx,
            slots: self.slots.update(slot_of(self.write_idx as int), desc),
        }
    }

    /// The state after each of `descs` is pushed, in order.
    pub open spec fn push_all(self, descs: Seq<BuffDesc>) -> RingState
        decreases descs.len(),
    {
        if descs.len() == 0 {
            self
        } else {
            self.push_all(descs.drop_last()).push(descs.last())
        }
    }

    /// Every queued descriptor has an address.
    pub open spec fn has_addresses(self) -> bool {
        forall|i: int| 0 <= i < self.contents().len() ==> #[trigger] self.contents()[i].encoded_addr != 0
    }

    /// The state after an enqueue of `desc`: unchanged when the ring is full.
    pub open spec fn after_enqueue(self, desc: BuffDesc) -> RingState {
        if self.is_full() {
            self
        } else {
            self.push(desc)
        }
    }

    /// The state after a dequeue: unchanged when the ring is empty.
    pub open spec fn after_dequeue(self) -> RingState {
        if self.is_empty() {
            self
        } else {
            self.pop()
        }
    }

    /// The state after the read index advances by `n`.
    pub open spec fn pop_n(self, n: int) -> RingState {
        RingState { write_idx: self.write_idx, read_idx: (self.read_idx + n) as u32, slots: self.slots }
    }

    /// The state after the read index advances.
    pub open spec fn pop(self) -> RingState {
        RingState { write_idx: self.write_idx, read_idx: (self.read_idx + 1) as u32, slots: self.slots }
    }
}

impl View for RingBuffer {
    type V = RingState;

    closed spec fn view(&self) -> RingState {
        RingState { write_idx: self.write_idx, read_idx: self.read_idx, slots: self.buffers@ }
    }
}

/// Every ring buffer has `RING_SIZE` slots.
pub broadcast proof fn lemma_ring_slots_len(ring: &RingBuffer)
    ensures
        #[trigger] ring@.slots.len() == RING_SIZE,
{
}

/// Get the number of buffers in the ring
pub fn ring_size(ring: &RingBuffer) -> (size: u32)
    requires
        ring@.read_idx <= ring@.write_idx,
    ensures
        size == ring@.size(),
        size == ring@.write_idx - ring@.read_idx,
{
    let read_idx = ring.read_idx;
    let write_idx = ring.write_idx;
    write_idx - read_idx
}

/// Check if the ring buffer is empty
pub fn ring_empty(ring: &RingBuffer) -> (empty: bool)
    requires
        ring@.read_idx <= ring@.write_idx,
    ensures
        empty == ring@.is_empty(),
        empty <==> ring@.write_idx == ring@.read_idx,
{
    return ring_size(ring) == 0;
}

/// Check if the ring buffer is full
pub fn ring_full(ring: &RingBuffer) -> (full: bool)
    requires
        ring@.read_idx <= ring@.write_idx,
    ensures
        full == ring@.is_full(),
        full <==> ring@.write_idx - ring@.read_idx == RING_SIZE - 1,
{
    ring_size(ring) == RING_SIZE - 1
}

/// Enqueue an element to a ring buffer
/// @param ring Ring buffer to enqueue into.
/// @param buffer address into shared memory where data is stored.
/// @param len length of data inside the buffer above.
/// @param cookie optional pointer to data required on dequeueing.
/// @return an error when the ring is full, `Ok` on success.
pub fn enqueue(ring: &mut RingBuffer, buffer_addr: usize, len: usize, cookie: usize) -> (result:
    Result<(), &'static str>)
    requires
        buffer_addr != 0,
        old(ring)@.read_idx <= old(ring)@.write_idx,
        !old(ring)@.is_full() ==> old(ring)@.write_idx < u32::MAX,
    ensures
        final(ring)@ == old(ring)@.after_enqueue(BuffDesc { encoded_addr: buffer_addr, len, cookie }),
        old(ring)@.is_full() ==> {
            &&& result matches Err(msg) && msg@ == "Trying to enqueue onto a full ring"@
            &&& final(ring)@ == old(ring)@
        },
        !old(ring)@.is_full() ==> {
            &&& result is Ok
            &&& final(ring)@ == old(ring)@.push(BuffDesc { encoded_addr: buffer_addr, len, cookie })
        },
{
    if ring_full(ring) {
        return Err("Trying to enqueue onto a full ring");
    }
    let write_idx = ring.write_idx;
    let slot = (write_idx % RING_SIZE) as usize;
    ring.buffers[slot] = BuffDesc { encoded_addr: buffer_addr, len: len, cookie: cookie };
    ring.write_idx = write_idx + 1;
    Ok(())
}

/**
 * Dequeue an element to a ring buffer.
 *
 * @param ring Ring buffer to dequeue from.
 *
 * @return the descriptor at the read index, or an error when the ring is empty.
 */
pub fn dequeue(ring: &mut RingBuffer) -> (result: Result<BuffDesc, &'static str>)
    requires
        old(ring)@.read_idx <= old(ring)@.write_idx,
        !old(ring)@.is_empty() ==> old(ring)@.front().encoded_addr != 0,
    ensures
        final(ring)@ == old(ring)@.after_dequeue(),
        old(ring)@.is_empty() ==> {
            &&& result matches Err(msg) && msg@ == "Trying to dequeue from an empty ring"@
            &&& final(ring)@ == old(ring)@
        },
        !old(ring)@.is_empty() ==> {
            &&& result == Ok::<BuffDesc, &'static str>(old(ring)@.front())
            &&& final(ring)@ == old(ring)@.pop()
        },
{
    proof {
        lemma_ring_slots_len(ring);
    }
    if ring_empty(ring) {
        return Err("Trying to dequeue from an empty ring");
    }
    let read_idx = ring.read_idx;
    let slot = (read_idx % RING_SIZE) as usize;
    let buffer = ring.buffers[slot];
    ring.read_idx = read_idx + 1;
    Ok(BuffDesc { encoded_addr: buffer.encoded_addr, cookie: buffer.cookie, len: buffer.len })
}

impl RingBuffer {
    /// A ring buffer with the given indices and slot contents, as they are
    /// laid out in shared memory.
    pub fn from_parts(write_idx: u32, read_idx: u32, buffers: [BuffDesc; RING_SLOTS]) -> (ring:
        RingBuffer)
        ensures
            ring@ == (RingState { write_idx, read_idx, slots: buffers@ }),
    {
        RingBuffer { write_idx, read_idx, buffers }
    }

    /// The slot writes that publish what was enqueued since the write index
    /// was `since`: for each index from `since` up to the write index, in
    /// order, its slot and the descriptor that the slot holds.
    pub fn writes_since(&self, since: u32) -> (writes: Vec<(usize, BuffDesc)>)
        requires
            since <= self@.write_idx,
        ensures
            writes@.len() == self@.write_idx - since,
            forall|k: int|
                0 <= k < writes@.len() ==> #[trigger] writes@[k] == (
                    slot_of(since + k) as usize,
                    self@.slots[slot_of(since + k)],
                ),
    {
        proof {
            lemma_ring_slots_len(self);
        }
        let mut writes: Vec<(usize, BuffDesc)> = Vec::new();
        let mut idx: u32 = since;
        while idx < self.write_idx
            invariant
                since <= idx <= self.write_idx,
                self@.slots.len() == RING_SIZE,
                writes@.len() == idx - since,
                forall|k: int|
                    0 <= k < writes@.len() ==> #[trigger] writes@[k] == (
                        slot_of(since + k) as usize,
                        self@.slots[slot_of(since + k)],
                    ),
            decreases self.write_idx - idx,
        {
            let slot = (idx % RING_SIZE) as usize;
            writes.push((slot, self.buffers[slot]));
            idx = idx + 1;
        }
        writes
    }

    /// The write index.
    pub fn write_idx(&self) -> (idx: u32)
        ensures
            idx == self@.write_idx,
    {
        self.write_idx
    }

    /// The read index.
    pub fn read_idx(&self) -> (idx: u32)
        ensures
            idx == self@.read_idx,
    {
        self.read_idx
    }

    /// The slots, in slot order.
    pub fn buffers(&self) -> (buffers: &[BuffDesc; RING_SLOTS])
        ensures
            buffers@ == self@.slots,
    {
        &self.buffers
    }
}

/// A ring handle for enqueing/dequeuing into
pub struct RingHandle<N> {
    /// Free ring, contains buffers that are empty and available for use.
    pub free: RingBuffer,
    /// Used ring, contains buffers that are ready for processing.
    pub used: RingBuffer,
    /// Function to be used to signal that work is queued in the used ring
    pub notify: N,
}

/**
 * Notify the other user of changes to the shared ring buffers.
 *
 * @param ring the ring handle used.
 *
 */
pub fn notify<N: Fn()>(ring: &RingHandle<N>)
    requires
        call_requires(ring.notify, ()),
    ensures
        call_ensures(ring.notify, (), ()),
{
    return (ring.notify)();
}

/**
 * Enqueue an element into an free ring buffer.
 * This indicates the buffer address parameter is currently free for use.
 *
 * @param ring Ring handle to enqueue into.
 * @param buffer address into shared memory where data is stored.
 * @param len length of data inside the buffer above.
 * @param cookie optional pointer to data required on dequeueing.
 *
 * @return an error when the ring is full, `Ok` on success.
 */
pub fn enqueue_free<N>(ring_handle: &mut RingHandle<N>, addr: usize, len: usize, cookie: usize) -> (result:
    Result<(), &'static str>)
    requires
        addr != 0,
        old(ring_handle).free@.read_idx <= old(ring_handle).free@.write_idx,
        !old(ring_handle).free@.is_full() ==> old(ring_handle).free@.write_idx < u32::MAX,
    ensures
        final(ring_handle).used == old(ring_handle).used,
        final(ring_handle).notify == old(ring_handle).notify,
        old(ring_handle).free@.is_full() ==> {
            &&& result matches Err(msg) && msg@ == "Trying to enqueue onto a full ring"@
            &&& final(ring_handle).free@ == old(ring_handle).free@
        },
        !old(ring_handle).free@.is_full() ==> {
            &&& result is Ok
            &&& final(ring_handle).free@ == old(ring_handle).free@.push(
                BuffDesc { encoded_addr: addr, len, cookie },
            )
        },
{
    enqueue(&mut ring_handle.free, addr, len, cookie)
}

/**
 * Enqueue an element into a used ring buffer.
 * This indicates the buffer address parameter is currently in use.
 *
 * @param ring Ring handle to enqueue into.
 * @param buffer address into shared memory where data is stored.
 * @param len length of data inside the buffer above.
 * @param cookie optional pointer to data required on dequeueing.
 *
 * @return an error when the ring is full, `Ok` on success.
 */
pub fn enqueue_used<N>(ring_handle: &mut RingHandle<N>, addr: usize, len: usize, cookie: usize) -> (result:
    Result<(), &'static str>)
    requires
        addr != 0,
        old(ring_handle).used@.read_idx <= old(ring_handle).used@.write_idx,
        !old(ring_handle).used@.is_full() ==> old(ring_handle).used@.write_idx < u32::MAX,
    ensures
        final(ring_handle).free == old(ring_handle).free,
        final(ring_handle).notify == old(ring_handle).notify,
        old(ring_handle).used@.is_full() ==> {
            &&& result matches Err(msg) && msg@ == "Trying to enqueue onto a full ring"@
            &&& final(ring_handle).used@ == old(ring_handle).used@
        },
        !old(ring_handle).used@.is_full() ==> {
            &&& result is Ok
            &&& final(ring_handle).used@ == old(ring_handle).used@.push(
                BuffDesc { encoded_addr: addr, len, cookie },
            )
        },
{
    enqueue(&mut ring_handle.used, addr, len, cookie)
}

/**
 * Dequeue an element from an free ring buffer.
 *
 * @param ring Ring handle to dequeue from.
 *
 * @return the descriptor, or an error when the ring is empty.
 */
pub fn dequeue_free<N>(ring: &mut RingHandle<N>) -> (result: Result<BuffDesc, &'static str>)
    requires
        old(ring).free@.read_idx <= old(ring).free@.write_idx,
        !old(ring).free@.is_empty() ==> old(ring).free@.front().encoded_addr != 0,
    ensures
        final(ring).used == old(ring).used,
        final(ring).notify == old(ring).notify,
        old(ring).free@.is_empty() ==> {
            &&& result matches Err(msg) && msg@ == "Trying to dequeue from an empty ring"@
            &&& final(ring).free@ == old(ring).free@
        },
        !old(ring).free@.is_empty() ==> {
            &&& result == Ok::<BuffDesc, &'static str>(old(ring).free@.front())
            &&& final(ring).free@ == old(ring).free@.pop()
        },
{
    dequeue(&mut ring.free)
}

/**
 * Dequeue an element from a used ring buffer.
 *
 * @param ring Ring handle to dequeue from.
 *
 * @return the descriptor, or an error when the ring is empty.
 */
pub fn dequeue_used<N>(ring: &mut RingHandle<N>) -> (result: Result<BuffDesc, &'static str>)
    requires
        old(ring).used@.read_idx <= old(ring).used@.write_idx,
        !old(ring).used@.is_empty() ==> old(ring).used@.front().encoded_addr != 0,
    ensures
        final(ring).free == old(ring).free,
        final(ring).notify == old(ring).notify,
        old(ring).used@.is_empty() ==> {
            &&& result matches Err(msg) && msg@ == "Trying to dequeue from an empty ring"@
            &&& final(ring).used@ == old(ring).used@
        },
        !old(ring).used@.is_empty() ==> {
            &&& result == Ok::<BuffDesc, &'static str>(old(ring).used@.front())
            &&& final(ring).used@ == old(ring).used@.pop()
        },
{
    dequeue(&mut ring.used)
}

/// The state after both indices are set to zero; the slots keep what they hold.
pub open spec fn reset_indices(state: RingState) -> RingState {
    RingState { write_idx: 0, read_idx: 0, slots: state.slots }
}

/**
 * Initialise the shared ring buffer.
 *
 * @param free the free ring in shared memory.
 * @param used the 'used' ring in shared memory.
 * @param notify function used to notify the other user.
 * @param buffer_init true indicates the read and write indices in shared memory need to be initialised.
 *                    false inidicates they do not. Only one side of the shared memory regions needs to do this.
 */
pub fn ring_init<N>(free: RingBuffer, used: RingBuffer, notify: N, buffer_init: bool) -> (ring:
    RingHandle<N>)
    ensures
        ring.notify == notify,
        buffer_init ==> ring.free@ == reset_indices(free@) && ring.used@ == reset_indices(used@),
        buffer_init ==> ring.free@.is_valid() && ring.free@.is_empty() && ring.used@.is_valid()
            && ring.used@.is_empty(),
        !buffer_init ==> ring.free@ == free@ && ring.used@ == used@,
{
    let mut ring = RingHandle { free: free, used: used, notify: notify };
    proof {
        lemma_ring_slots_len(&ring.free);
        lemma_ring_slots_len(&ring.used);
    }

    if buffer_init {
        ring.free.write_idx = 0;
        ring.free.read_idx = 0;
        ring.used.write_idx = 0;
        ring.used.read_idx = 0;
    }
    ring
}

/// Two distinct indices less than a full turn apart designate distinct slots.
proof fn lemma_distinct_slots(a: int, b: int)
    requires
        a < b < a + RING_SIZE,
    ensures
        slot_of(a) != slot_of(b),
{
    assert(slot_of(a) != slot_of(b)) by (nonlinear_arith)
        requires
            a < b < a + 512,
    {
    }
}

/// Pushing onto a valid ring that is not full appends the descriptor to
/// the queued contents and keeps the ring valid.
pub proof fn lemma_push_appends(state: RingState, desc: BuffDesc)
    requires
        state.is_valid(),
        !state.is_full(),
        state.write_idx < u32::MAX,
    ensures
        state.push(desc).is_valid(),
        state.push(desc).contents() == state.contents().push(desc),
{
    let next = state.push(desc);
    assert forall|i: int| 0 <= i < state.size() implies next.contents()[i] == state.contents()[i] by {
        lemma_distinct_slots(state.read_idx + i, state.write_idx as int);
    }
    assert(next.contents() =~= state.contents().push(desc));
}

/// Popping a ring that holds a descriptor hands out the oldest one and
/// removes it from the queued contents.
pub proof fn lemma_pop_removes_front(state: RingState)
    requires
        state.read_idx < state.write_idx,
    ensures
        state.contents().len() > 0,
        state.front() == state.contents()[0],
        state.pop().contents() == state.contents().drop_first(),
        state.is_valid() ==> state.pop().is_valid(),
{
    assert(state.pop().contents() =~= state.contents().drop_first());
}

/// Pushing a sequence of descriptors onto a valid ring that has room for
/// all of them appends them, in order, to the queued contents.
pub proof fn lemma_push_all_appends(state: RingState, descs: Seq<BuffDesc>)
    requires
        state.is_valid(),
        state.size() + descs.len() < RING_SIZE,
        state.write_idx + descs.len() <= u32::MAX,
    ensures
        state.push_all(descs).is_valid(),
        state.push_all(descs).contents() == state.contents() + descs,
        state.push_all(descs).read_idx == state.read_idx,
        state.push_all(descs).write_idx == state.write_idx + descs.len(),
    decreases descs.len(),
{
    if descs.len() == 0 {
        assert(state.contents() + descs =~= state.contents());
    } else {
        let prefix = descs.drop_last();
        lemma_push_all_appends(state, prefix);
        lemma_push_appends(state.push_all(prefix), descs.last());
        assert((state.contents() + prefix).push(descs.last()) =~= state.contents() + descs);
    }
}

/// Pushing a sequence advances the write index by its length and changes
/// neither the read index nor the number of slots.
pub proof fn lemma_push_all_indices(state: RingState, descs: Seq<BuffDesc>)
    requires
        state.slots.len() == RING_SIZE,
        state.write_idx + descs.len() <= u32::MAX,
    ensures
        state.push_all(descs).write_idx == state.write_idx + descs.len(),
        state.push_all(descs).read_idx == state.read_idx,
        state.push_all(descs).slots.len() == RING_SIZE,
    decreases descs.len(),
{
    if descs.len() > 0 {
        lemma_push_all_indices(state, descs.drop_last());
    }
}

/// Popping `n` descriptors from a ring that holds at least `n` removes the
/// `n` oldest from its queued contents and keeps a valid ring valid.
pub proof fn lemma_pop_n_skips(state: RingState, n: int)
    requires
        state.read_idx <= state.write_idx,
        0 <= n <= state.size(),
    ensures
        state.pop_n(n).contents() == state.contents().skip(n),
        state.pop_n(n).size() == state.size() - n,
        state.is_valid() ==> state.pop_n(n).is_valid(),
{
    assert(state.pop_n(n).contents() =~= state.contents().skip(n));
}

/// An enqueue of a descriptor with an address onto a valid ring whose queued
/// descriptors have addresses keeps both properties; the ring grows by one
/// unless it was full, and is unchanged then.
pub proof fn lemma_enqueue_keeps_ring_sound(state: RingState, desc: BuffDesc)
    requires
        state.is_valid(),
        state.has_addresses(),
        desc.encoded_addr != 0,
        state.write_idx < u32::MAX,
    ensures
        state.after_enqueue(desc).is_valid(),
        state.after_enqueue(desc).has_addresses(),
        state.after_enqueue(desc).size() == state.size() + if state.is_full() { 0int } else { 1int },
{
    if !state.is_full() {
        lemma_push_appends(state, desc);
        let next = state.push(desc);
        assert forall|i: int| 0 <= i < next.contents().len() implies #[trigger] next.contents()[i].encoded_addr
            != 0 by {
            if i < state.contents().len() {
                assert(next.contents()[i] == state.contents()[i]);
            }
        }
    }
}

/// A dequeue from a valid ring whose queued descriptors have addresses keeps
/// both properties and hands out a descriptor with an address; the ring
/// shrinks by one unless it was empty, and is unchanged then.
pub proof fn lemma_dequeue_keeps_ring_sound(state: RingState)
    requires
        state.is_valid(),
        state.has_addresses(),
    ensures
        state.after_dequeue().is_valid(),
        state.after_dequeue().has_addresses(),
        state.after_dequeue().size() == state.size() - if state.is_empty() { 0int } else { 1int },
        !state.is_empty() ==> state.front().encoded_addr != 0,
{
    if !state.is_empty() {
        lemma_pop_removes_front(state);
        let next = state.pop();
        assert(state.contents()[0].encoded_addr != 0);
        assert forall|i: int| 0 <= i < next.contents().len() implies #[trigger] next.contents()[i].encoded_addr
            != 0 by {
            assert(next.contents()[i] == state.contents()[i + 1]);
        }
    }
}

/// A ring is a first-in first-out queue: a descriptor enqueued onto a valid
/// empty ring is the next one dequeued, and dequeuing it leaves the ring empty.
pub proof fn lemma_fifo_round_trip(state: RingState, desc: BuffDesc)
    requires
        state.is_valid(),
        state.is_empty(),
        state.write_idx < u32::MAX,
    ensures
        state.push(desc).front() == desc,
        state.push(desc).pop().is_valid(),
        state.push(desc).pop().is_empty(),
{
    lemma_push_appends(state, desc);
    lemma_pop_removes_front(state.push(desc));
}

} // verus!
