# inflight

Verified bookkeeping for overlapped socket operations.

On a completion port an operation that has been issued keeps its socket alive
until a poll dispatches its completion, even when the socket was dropped long
before. `inflight` keeps the account of such operations, states and proves what
holds of it, and makes the decisions of the loops around it: waiting for an
event, reaping what is in flight, parking and flushing a send, filling a
connection, draining a peer.

* `src/` is the library. Every function in it carries a contract that Verus
  checks; the laws that span several functions are public proof functions.
  What is taken on trust is how `mio::Ready` combines and compares readiness
  sets (`src/readiness.rs`).
* `tests/` runs the library on concrete scenarios.
* `app/` holds the drivers: sockets, polls, threads and clocks. They do what the
  library decides and hand back what happened.

Times are nanoseconds on a monotonic clock.
