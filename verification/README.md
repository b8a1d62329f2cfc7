# atomics_and_locks

Verified models of classic concurrency primitives:
spin lock, futex mutexes, one-shot and queue channels, reference counting
with and without weak pointers, and lazy initialisation with
`compare_exchange`; the consumer decisions of the parking and
condition-variable demonstrations, with the condition variable's work
queue; and a lock guarding a relaxed counter, modelled with
the counter's modification order and per-thread views, where acquire and
release ordering is proved to keep every increment.

Each primitive's shared atomic words are plain values in `src/`, and each
atomic step a thread takes is one call. Where threads matter (the locks and
the lazy-initialisation races) every registered thread's position in the
protocol is tracked, and the protocol invariants (mutual exclusion, no lost
wake-up, agreement on the initialised value) are proved to hold after every
step. All of these but the ordered lock are sequentially consistent
models. The reference counts, the channels and
the single-owner counter state exactly what each operation does to the
shared state. The shared atomic counter (`CounterSync`) is a real atomic,
of whose value nothing is stated.

- `src/` — the library, verified by Verus.
- `tests/` — executable scenarios for the library.
- `app/` — the demonstration program: thread demos on the standard
  library's primitives, timing of atomics, and the chapters' demos driven
  through the library's models.
