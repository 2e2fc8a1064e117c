# process_explorer

A desktop process explorer whose logic is verified with Verus.

- `src/` is the verified library: the order and filter of the process list
  (`listing`), the sort-header and column state (`columns`), the bounded usage
  histories and the refresh timer (`history`), byte counts as shown text
  (`size`, with the `f64` conversion and two-decimal rounding stated exactly on
  integers), decimal and substring text helpers (`text`), and the small panel
  decisions (`display`).
- `app/` is the window around it: reading processes, CPUs and memory through
  `sysinfo`, drawing with `eframe`/`egui` and `egui_plot`, the clock, and the
  floating-point percentages, usage bars and colour thresholds.
- `tests/` runs the library on concrete values.
