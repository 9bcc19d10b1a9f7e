# veloq_runtime

The core of a thread-per-core asynchronous runtime, verified with Verus.

- `io/buffer`: a buddy system, a slab allocator, and the buffer pools over them.
- `io/driver`: operations in flight. `uring` is the io_uring driver, `iocp` the
  completion port driver; `stable_slab` and `op_registry` hold their operations.
- `io/socket`: socket addresses in the layout of system calls.
- `fs`, `net`: what files and sockets ask of a driver.
- `local`: a channel inside one event loop.
- `sync`: queues of jobs.
- `text`: numbers in words.
- `runtime`: tasks, workers, the rings between them, and how jobs are spread.

The core makes no system call. It says what to ask of the system, as plain values,
and takes in the answers. `app/` makes the calls, owns the memory and the threads,
and runs the futures.

A type's `view` or model (`DriverModel`, `Arena`, `ChannelModel`, `SharedModel`, ...)
is what its contracts speak of. Properties that span several functions are public
proof functions named `lemma_...` next to the models.
