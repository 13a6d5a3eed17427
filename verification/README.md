# netmon

A network traffic monitor whose accounting is verified with Verus.

Kernel probes on the TCP and UDP send and receive paths put down how many bytes
each process exchanged with each remote address and port: as events in a ring
buffer, and as running totals in a map. The user side feeds both into one table,
takes the totals of processes that exited out of the map, and shows snapshots of
the table. A byte that both sources bring counts once where its event is read
before the scan that shows it, which is why the ring buffer is drained first; an
event that comes behind that scan counts its bytes again.

- `src/` is the verified library.
  - `flow`, `flow_map`: what a flow is, and a map that is keyed by flows.
  - `traffic`: the records that the two sides exchange.
  - `probe`, `capture`: the probes as state machines, and what a whole run of one
    does to the kernel's maps.
  - `table`, `ranking`, `text`, `history`: the traffic table, and what holds of it
    over any run of operations.
  - `poller`, `loader`, `xtask`: the poll loop, what is attached to the kernel, and
    the command lines of the build tasks.
- `tests/` runs the library.
- `app/` is ordinary Rust around it: kernel access, threads, files, arguments.
