# sabi

The verified core of sabiDB, a WAL-first, MVCC-based SQL database with
reactive subscriptions, written in Verus.

`src/` is the library, every function of it verified:

- storage formats: pages (`page`), B+Tree nodes in page payloads (`btree`),
  the decisions of the tree (`tree`), the write-ahead log (`wal`), version
  chains in data pages and composite index keys (`engine`);
- transactions and visibility (`tx`, `tx_order`, `mvcc`), the tables in
  memory (`tables`);
- SQL: values and schemas (`sql_types`), syntax trees (`sql_ast`), the
  syntax tree sqlparser reads held in plain values (`sql_syntax`) and its
  conversion into statements (`sql_parse`),
  expression evaluation (`sql_eval`), planning (`sql_plan`), execution
  helpers (`sql_exec`), session transaction state (`sql_session`), the
  answers of the query service (`service`);
- the wire protocol (`protocol`, `wire`), connected clients (`client_tracker`),
  the reactive dependency graph (`reactive`), the deterministic environment
  of functions (`deterministic`).

`app/` holds what touches files and sockets: the page file, the log writer
and reader, the B+Tree and storage engine over files, the SQL executor, the
HTTP/WebSocket server and the shell.
`tests/` exercises the library from outside.
