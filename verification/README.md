# budget_tracker

The core of a personal budget tracker (accounts on personal and business ledgers, tagged
transactions, recurring items, budgets, debts), written in Verus and proved against its
contracts.

## Layout

- `src/` — the verified library.
  - `calendar.rs`: proleptic Gregorian dates as `chrono` holds them, day numbers, and the
    `chrono` calls the library makes.
  - `recurrence.rs`: stepping a date by a day/week/month/year interval with month-end
    clamping, and finding the billing cycle that holds a date.
  - `recurring.rs`: a recurring item's current cycle and what was paid in it.
  - `occurrences.rs`, `subscriptions.rs`: the subscription rules of the earlier schema
    (materializing billing dates up to a horizon, editing a subscription).
  - `debt_math.rs`, `debts.rs`: the monthly amortization schedule, one month per step.
  - `budgets.rs`, `dashboard.rs`: a month's bounds, summaries and trend, budget overrides,
    and spend rolled up through the tag hierarchy.
  - `transactions.rs`, `accounts.rs`, `tags.rs`: sign rules, transfers between accounts,
    and the refusals that protect linked data.
  - `data.rs`, `db.rs`, `legacy_import.rs`: backup columns and restore checks, and the plan
    for converting a backup of the earlier schema.
  - `text.rs`: decimal and padded number text, joins, trimming.
- `tests/` — tests on concrete values, run against the compiled library.
- `app/` — the unverified shell: SQLite storage (`rusqlite`, `rusqlite_migration`), CSV
  files (`csv`, `serde`), the floating-point interest of each month and a budget's percentage,
  and the command functions the frontend calls. The migration scripts are read at start-up
  from a directory given to `db::init`.
