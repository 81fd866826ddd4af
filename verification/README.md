# arca_networking

A byte pipe between two machines that share memory, and the control protocol by
which a client without sockets gets TCP sessions from a monitor that owns them. The
library is written in Verus: what each function does is stated in its contract and
proved.

| Module      | What it holds |
| ----------- | ------------- |
| `bytes`     | Copying byte ranges, little-endian integers. |
| `pipe`      | Rings for one producer and one consumer, the memory layout of two of them, pipe endpoints, and the traits `Channel`, `Read`, `Write` and `Pipe`. |
| `control`   | Frames and their codec, requests and replies, the client's session. |
| `monitor`   | What the monitor knows, what each request and socket outcome does to it, its runs, and the byte relay. |
| `data_pipe` | The byte stream of one session, for callers that may wait and for those that may not. |
| `transfer`  | The pattern, the checksum and the loops that exercise a ring. |

Contracts speak of a channel by its `ChannelState`: the bytes that will come, the
bytes handed over, the room left. A function that waits asks that its wait can end.

`app/` is ordinary Rust around the library: pipe endpoints over POSIX shared memory,
the monitor's sockets, async wrappers and the command line. It reads the atomic
cursors of a ring into a `RingHeader`, lets the library plan the move, copies, and
publishes the new cursor; `producer_may_lag`, `consumer_may_lag` and
`sides_never_collide` in `pipe` say why an old copy of the peer's cursor is enough.

A region's cursors are bytes of its memory. An endpoint reads them when it is created and
writes them back when it gives the region on.

The one thing taken on trust is that `core::hint::spin_loop` returns.
