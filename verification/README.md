# bxr

A small x86-64 machine runtime whose behaviour is stated in Verus contracts and
proved: register file, RFLAGS, decoder, interpreter, long-mode page walker,
page-backed physical memory with dirty tracking and executable-page generations,
serial console device, snapshot manifests with FNV-1a content hashes, and the
single-vCPU machine that ties them together (decode cache, trace ring, virtual
clock, snapshot capture and restore).

## Layout

- `src/` — the verified library, one module per component (`width`, `arith`,
  `registers`, `flags`, `system`, `decode`, `execute`, `mmu`, `memory`, `devices`,
  `snapshot`, `boot`, `machine`, `demo`), and `laws`, which states properties that
  span several operations: snapshot round trips, tick counting, determinism of a
  step and of a run, decode-cache behaviour, page generations; and `history`, which
  states what holds over any sequence of calls on a machine: ticks count successful
  steps, the trace keeps the newest 256 events in order, the cache counters count
  fetches, and the decode cache never serves a stale decode.
- `tests/` — executable tests of the library.
- `app/` — the host side: the throughput benchmark and the browser exports, which
  keep one machine per thread and hand the library plain values.
