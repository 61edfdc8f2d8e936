# brk_computer

The computations behind the derived datasets of a Bitcoin chain explorer,
written in Verus and proved against their contracts.

- `src/options.rs`, `src/builder.rs`, `src/stats.rs`, `src/column.rs`: the
  statistics of a series per group (first, last, extremes, percentiles,
  average, sum, running total) and how they resume.
- `src/grouped.rs`: those statistics per day, week, month, quarter, year and
  decade, and per height and difficulty epoch.
- `src/dates.rs`: the date of each block from its fixed time, the index of
  each date, and the maps between heights, days, weeks, months, quarters,
  years, decades and difficulty epochs.
- `src/supply.rs`: the block-by-block pass over the chain as a transition
  from one state and the facts of one block to the next state, with the
  test of whether a block can be taken and the classification of a block's
  outputs and spends.
- `src/stores.rs`, `src/ledger.rs`, `src/address.rs`: address records moving
  between the funded and empty stores, and their amount cohorts.
- `src/cohorts.rs`, `src/timeline.rs`, `src/prices.rs`: cohort filters,
  resume points, block times and prices.
- `src/builder_laws.rs`: laws across calls.
- `app/lib.rs`: storage around the library (reading and writing the stored
  series), the calendar columns, and the loop that feeds it blocks.
- `tests/`: scenarios on concrete values.
