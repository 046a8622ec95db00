# ipc_teal

Shared-memory message passing between processes on one Linux machine.
Two processes connect over a Unix seqpacket socket, exchange sealed memory
files through it, and then pass messages through ring buffers in the shared
memory; the socket is only used to wake a peer that went to sleep.

## Layout

- `src/` is the verified library (Verus):
  - `layout`: sizes of the shared state blocks, the state words, and the
    power-of-two arithmetic of queue depths.
  - `send_queue`: the writing side of a queue — header slots, tail pointer,
    reservation of space in the data buffer, committing a message, and giving
    a reservation up (its slot is marked with the length `usize::MAX`, which
    no message can have, and readers skip it).
  - `ring`: the ring invariant of the unread messages and the proofs that,
    while it holds, reservations never overlap them, and that consuming and
    committing keep it. There is one exception, and the proofs show it is
    exact: when the unread messages wrap round the end of the buffer, an
    empty message committed exactly where the oldest unread one starts
    breaks the invariant. After that, a later reservation can overlap an
    unread message; the test
    `zero_length_message_at_oldest_start_lets_a_reservation_overlap` shows
    one.
  - `recv_queue`: the reading side — checking the peer's mapping, locating
    headers and message bytes in it, and reading back what was written.
  - `handshake`: checks on the descriptor packets and the shared files.
  - `server`, `channel`: an open bidirectional channel and its message-level
    interface.
  - `broadcast`, `broadcast_channel`: the broadcaster's layout, a broadcast
    receiver's head pointer, and lag detection.
- `app/` drives sockets, memory maps, atomics and the async runtime, and calls
  the library for every decision.
- `tests/` exercise the library on concrete values.
