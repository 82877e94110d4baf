# poshgre

The logic of a terminal PostgreSQL client, verified with Verus.

- `src/text.rs`: character classes, trimming, searching and the other text
  vocabulary the rest is stated in.
- `src/query.rs`: identifier quoting, write-statement detection (read-only
  mode), display sanitising, memory estimates and their human-readable form,
  and the decoding decisions for PostgreSQL values.
- `src/tui/`: one-line SQL, reading `SET search_path`, what a picked result
  row leads to, fixed-width row layout, the preview chunk files, how a
  shell command runs (on the bastion over `ssh` when connected through
  one), and the state of the input areas and of the application
  (read-only mode, connecting, viewer follow-ups, shutdown).
- `app/`: the runtime around the library: running queries with sqlx,
  decoding values (dates with chrono, floating point), writing and reading
  the preview files, the result viewer's items and options for skim,
  running shell commands with the terminal suspended, and the shutdown
  wait.
