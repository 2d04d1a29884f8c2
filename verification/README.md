# melin

The core of an exchange and of the tools around it, written in Rust and proved
with Verus.

- `src/` is the library. Every function states what it does in `requires` and
  `ensures`, and the properties that span functions are public proof functions
  named `law_...`.
- `app/` is ordinary Rust around it: sockets, io_uring, files, histograms and
  the command line. What the node supplies itself, such as its wire format,
  its journal and its ledger, enters as a trait.
- `tests/` runs the library.

| module | what it holds |
|---|---|
| `orderbook` | one side of a book: price levels with FIFO queues on a slab |
| `exchange` | admission of orders, fees, settlement, the sequencer's application |
| `engine` | scheduled tasks |
| `disruptor` | a ring between one producer and one consumer |
| `transport` | pipeline cursors, replication handshake and authentication |
| `protocol` | requests, answers and the client's side of them |
| `server` | startup events, core lists, application factories, promotion |
| `journal` | comparison and batches of journals |
| `gateway`, `dpdk` | gateway counters and arguments, the polled transport |
| `bench` | benchmark harness: pacing, phases, connections, reports, calibration |
| `text`, `bytes`, `types` | helpers, and the identifiers, orders and reports |

A few functions of other crates and of the standard library are called behind
small wrappers marked `#[verifier::external_body]`; the comment above each says
what is believed of it.
