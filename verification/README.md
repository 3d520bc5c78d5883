# logsentry

A daemon that watches the systemd journal, learns what is usual, and reports what is not.

The library under `src/` is written in Verus: every function carries a contract, and the
contracts are proved. The program under `app/` is ordinary Rust around it: files, sockets,
processes, D-Bus, and floating-point arithmetic.

## The library

- from a line to a template: `journal`, `mask`, `pattern`, `template`, `hash`
- what is usual: `window`, `rate`, `stats`, `histogram`, `profile`, `decay`, `slot`, `store`
- what is unusual: `engine`
- what is kept out: `quiet`
- the way of an event: `ring`, `pipeline`, `state`
- what survives a restart: `persist`, `bytes`
- clients: `proto`, `wire`, `session`, `actions`, `server`
- the rest of the daemon: `config`, `cli`, `ingestion`, `system`, `metrics`
- shared tools: `text`, `textmap`, `tables`, `weights`, `sorting`, `float`

Floating-point numbers are held by their bits. The library compares them and decides on
them; what is computed with them comes from the caller (`float::FloatUnit`, and the
scoring function of `engine`), and the contracts say which results are used where.

What the library has from other crates stands in small trusted functions: regular
expressions (`pattern`), the local time (`slot`), and JSON (`session`). The doc comment of
each says what is taken for granted of it.
