# perf_event_block

Measure blocks of code with hardware and software event counters, and print what was counted as
columns, next to free-form benchmark parameters.

- `src/` is the library, verified with Verus. It holds what decides and computes, but for
  floating point: which events are counted and how, the order in which counters are started,
  stopped and undone, the sampling loop, the parameters, and the exact text that is printed. It
  touches no counter, clock or terminal: runs over counters and the sampler say what is to be
  done next and are told how it went. Numbers with decimals leave the library as exact measures
  and come back as text.
- `app/` drives the library with the counters of Linux, the clock, a background thread and
  standard output, and evaluates the measures in floating point.
- `tests/` runs the library with made-up counters.

Functions whose names begin with `law_` state what holds of the library as a whole, such as that
a failed start is undone, that slices miss nothing and count nothing twice, or that header and
values line up.
