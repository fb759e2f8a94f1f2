# cogposix

A verified core for the CogPOSIX experimental inference runtime: a per-user
daemon that serves sessions over a Unix socket, with session-owned handles to
models, buffers, tensors and jobs, bounded quotas, a FIFO worker and
cooperative cancellation.

- `src/` is the library, checked by Verus: the wire format, the request
  messages, the runtime state machine with its invariant, the connection and
  client protocol rules, backend admission rules, the C descriptor checks and
  the command lines. `src/laws.rs` and `src/wire_laws.rs` state the
  properties that span operations.
- `app/` is the program around it: sockets, threads, the worker process, the
  C ABI and the command-line client. It hands the library each frame, reply
  and worker result and follows its answer; what stays here is timing (the
  socket timeouts, polling a job until a deadline) and catching a panicking
  backend.
- `tests/` runs the library on concrete scenarios.
