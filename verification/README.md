# gj: promises on a single-threaded event loop, verified

A `Promise<T, E>` is a computation that eventually resolves to a value of type `T`
or an error of type `E`. Promises are chained (`and_then`, `then_else`, `map`,
`map_err`), combined (`all`, `exclusive_join`, `fork`) and run by an `EventLoop`;
`Promise::wait` turns the loop until a promise resolves.

The library is written in Verus. Every promise states the set of results it may
resolve to (`Promise::outcomes`), and each combinator's contract says exactly what
that set is in terms of its inputs' sets; every kind of promise node proves that
what it produces lies in its set. The event queue proves its ordering rules
(breadth-first arms go to the back; depth-first arms during a turn run next, in
the order they were armed), and the handle table proves that freed handles are
reused lowest first.

Layout:

- `src/lib.rs`: `Promise`, `EventLoop`, `PromiseFulfiller`, `ForkedPromise`,
  `TaskSet`, and the sets of results that the contracts speak of.
- `src/private/`: promise nodes (`promise_node.rs`), the event queue
  (`event_queue.rs`) and the event plumbing (`mod.rs`).
- `src/handle_table.rs`: the slab that the event queue lives in.
- `src/io.rs`: the decisions of nonblocking streams: read and write steps, the
  premature-EOF check, readiness dispatch to waiting promises, timeouts.
- `src/laws.rs`: laws of the combinators, proved over their result sets.
- `src/cells.rs`: the cells that shared state lives in, and `Rc::strong_count`.
- `app/`: sockets over mio (event port, TCP and Unix-domain streams), which make
  the system calls and hand their outcomes to `gj::io`.

Nothing in the library runs code when it is dropped: an event's owner holds a
token, and the loop frees events whose token nobody else holds before each turn.
