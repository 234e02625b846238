# oslab

Operating-system exercises (processes, threads, shared memory, signals,
memory maps) with their decisions and computations in a library verified by
Verus.

- `src/` is the verified library: decimal text and `u32` parsing, reading
  `pgrep` output, command-line handling, the monitoring service's state
  machine, memory-map file names and capture commands, matrix multiplication
  by rows (direct and on row-major buffers), the shared-memory byte layout,
  clock labels, report lines and the memory exercise's signal decisions.
- `app/` is one program with a subcommand per exercise; it does the
  operating-system work (forking, threads, sockets, memory mapping, signals,
  files, clocks) and calls the library for the rest.
- `tests/` runs the library on concrete inputs.
