# rust_days

A collection of small command-line tools and HTTP services whose logic is a
library verified with Verus.

- `src/` is the verified library: text primitives (whitespace, words,
  trimming, decimal rendering, integer parsing), a line editor, an order
  lifecycle, safe parsing of typed values, file statistics, port and user
  validation, word frequencies and word analysis, salary records, reportable
  and describable items, and the decisions of three todo services (an
  in-memory store and the rules of a SQLite-backed one).
- `tests/` runs the library on concrete inputs.
- `app/` is the program around it: prompts and loops on standard input,
  file and network I/O, floating-point arithmetic, the HTTP servers (axum,
  tower-http, tower_governor, utoipa) and the SQLite queries (sqlx).

Each function of the library states its result in its `ensures` clause over
mathematical models (`Seq<char>` for text, tuples for records and todos);
cross-function properties are public proof functions named `law_*`. Calls
into `std`, `uuid`, `itertools` and `serde_json` go through small trusted
wrappers whose doc comments say what is assumed of them.
