# rust_expense_tracker

A personal expense tracker: categories, expenses and users, with spending reports
by category and by month.

- `src/` is the verified library (Verus). It holds the store and its integrity
  rules (unique ids and usernames, every expense refers to an existing category),
  the request handlers' decisions and errors, the reports (which amounts each total
  adds up, grouped and ordered), calendar dates, Argon2 password hashing, the
  issuing and checking of JWT bearer tokens, and the command-line client's text
  output. `src/laws.rs` states and proves properties
  that span operations, such as "the totals by month add up to the total".
- `app/` is the HTTP server (axum, SQLite through sqlx) and the
  command-line client (clap, reqwest). It converts between JSON and the library's
  records and adds up the floating-point amounts.
- `tests/` exercises the library.
