# baijimu_connector_codex

The Codex connector of the Baijimu platform: a local HTTP service that lets
the platform list a user's Codex threads and projects and drive turns through
a private `codex app-server` process. The library also holds the decisions of
the desktop-application connector (IPC follower requests, history paging, the
application switch); the program in `app/` does not run that path.

- `src/` is the verified library (Verus): HTTP request heads and routing,
  readiness and set-up decisions, management authorisation, invocation checks,
  the project catalog and its listing order, history cursors and pagination,
  the desktop IPC framing and follower decisions, WebSocket framing and
  handshake, credential selection, and the artifact catalog requirement.
  Public proof functions state the laws the library keeps.
- `app/` is the program around it: argument handling, the TCP listener,
  the `codex app-server` child process spoken to in JSON lines over stdio,
  and the `baijimu` CLI.
- `tests/` exercise the library on concrete values.
