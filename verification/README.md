# sysmon

A terminal system monitor. The crate is split in two:

- `src/` is the library, verified with Verus: the data model, the ordering of
  the process table (a stable sort whose outcome is proved unique), the
  bookkeeping from which network rates are derived, the text rendering of byte
  sizes and durations, the figures the panels show, and the decisions of the
  interactive loop.
- `app/` is the program around it: it reads the machine through `sysinfo`,
  draws with `ratatui` on a `crossterm` terminal, and does the floating-point
  work (rates, CPU and memory percentages, colour thresholds).

Floating-point percentages travel through the library as the bit patterns of
their `f32` values; the table is ordered by the sign-and-magnitude reading of
those patterns, which orders non-NaN values as numbers.
