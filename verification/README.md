# percentile-kit (verified core)

Latency percentile tracking and budget gates, with the library's logic
verified by Verus.

- `src/` — the verified library. Samples are `f64` bit patterns (`u64`):
  - `sample_bits`: NaN detection and the IEEE-754 total order (`f64::total_cmp`) over bits;
  - `sorting`: sorting samples in that order (sorted, a permutation, and unique);
  - `quantile`: nearest-rank selection at an exact ratio `num / den`, or at a
    pre-scaled rank, with its laws (extremes, monotonicity, ordered percentiles);
  - `ring`: the sliding-window protocol (slot of a ticket, window bounds, the
    read of a window) and its model, with the law that a single writer's
    window is exactly the `N` most recent accepted samples;
  - `tracker`: the lock-free `PercentileTracker` on std atomics;
  - `render`, `report`: the percentile table and the budget table, the
    report's pass rule and the row the CI gate reports;
  - `padding`: `CachePadded`.
- `app/` — the `f64` API, criterion/TOML parsing and file I/O, the
  floating-point budget arithmetic, `ReportError`, and the loom model.
- `tests/` — tests of the library.
