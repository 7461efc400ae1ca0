# LARS

A scheduler for simulations on a shared cluster. It predicts what a simulation will cost from
what earlier ones have cost, lets it run where the cluster can take it, and learns from what it
has cost in the end.

- `src/` is the library, verified with Verus: numbers (`rounding`, `single`, `exact`, `order`, `text`),
  data (`model`, `registry`, `events`), decisions (`pricing`, `admission`, `requests`, `queue`,
  `finish`, `task`, `analysis`, `script`, `github`, `pages`), the state they work on (`state`), and what
  holds across them (`laws`). `outside` holds the calls into other crates and what is believed
  of them.
- `tests/` runs the library.
- `app/` is the web service around it: HTTP, the database, files, commands and clocks.

Single-precision numbers are held by their bits. Each operation on them is proved to be the
exact result, rounded once to the nearest number with ties to even. Whether a request fits is
decided on sums that are not rounded at all.
