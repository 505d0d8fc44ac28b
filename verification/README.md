# qloxide

A book of financial instruments and deals, valued against daily market
histories: listings, positions, settle-primary P&L, P&L series, and the
consistency checks that decide which of them may be reported.

## Layout

- `src/` is the library, verified with Verus. Dates and calendars (jiff
  behind small trusted wrappers), exact decimals (rust_decimal behind
  trusted wrappers), instruments, deals, position compression, the mark
  routing and P&L arithmetic, the report texts, the configuration and
  history checks (the valuation day, whether a vol data day may merge
  into a market day), the calendar and coverage of a series manifest, and the decisions of history generation (the span, each
  step of the day walk, what to ask a venue for, which vol surfaces a
  book-tier day keeps, which provenance stamps a header carries). Contracts are
  stated over spec functions; laws that relate several operations are
  public proof functions.
- `tests/` exercises the library on concrete values.
- `app/` is the command-line program: reading files, serde and clap, and
  everything computed in floating point (curves, vol surfaces, Black-76,
  implied volatilities, the closed-form option models, the risk-neutral
  density analytics). It hands the library plain values and takes plain
  values back.
