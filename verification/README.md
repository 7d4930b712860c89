# content

The request-handling logic of a small static-content HTTP server, verified
with Verus.

- `src/` is the verified library: cleaning of request paths (`path`),
  routing and error answers (`response`), content types by extension
  (`mime`), directory index selection (`dir_index`), start-up settings and
  port parsing (`config`), the shared settings' description (`shared`), and
  the plain values around the JavaScript and Lua runners (`javascript`,
  `lua`). Character and number helpers live in `text`.
- `app/` is the server process: settings from the environment and the
  command line, the HTTP listener, file system access, and the script
  engines.
- `tests/` runs the library on concrete values, and compares path cleaning,
  path joining and port parsing with the standard library.
