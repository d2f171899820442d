# echo_server

The copy component of an echo server and the shared ring buffers it uses,
verified with Verus.

- `src/shared_ringbuffer.rs`: buffer descriptors, ring buffers with free-running
  read and write indices, the handles that pair a free ring with a used ring,
  and the queue laws of a ring (what an enqueue appends, what a dequeue hands
  out, how many descriptors a ring can hold).
- `src/copy.rs`: the copier's decisions: setting up the rings, moving filled
  buffers from the receive multiplexer to a client, and which components to
  signal. Reports, signals and the packet data copies to make are returned
  as values.
- `app/`: the protection domain around the library: mapping the shared memory
  regions, loading and storing rings, printing reports and sending signals.
