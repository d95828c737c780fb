# localdrop

The backend of LocalDrop, a zero-configuration LAN file and text transfer
tool, as a verified library plus the process that runs it.

- `src/` is the library, written in Verus and verified: path sanitization and
  the lexical path model, the wire protocol (framing, offer validation), the
  peer registry, progress telemetry, settings repair, discovery decisions,
  every decision of the transfer engine, and the command checks. Each public
  function states its result in its contract; the properties that span
  functions are public proof functions named `law_*`.
- `tests/` runs the library on concrete values.
- `app/` is the process around it: JSON persistence, UDP and TCP sockets,
  file I/O, the async loops, and serializable mirrors of the library's types.
  Events for a frontend are written to standard output as JSON lines, and
  commands are read from standard input, one JSON request per line
  (`{"id": 1, "cmd": "send_text", "args": {"deviceId": "..", "text": ".."}}`),
  each answered by an `invoke://result` event.
