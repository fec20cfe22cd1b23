# habits_display

The logic of a small ESP32-C3 screen that shows the last three habit
notifications it received over a WebSocket and keeps its clock in step with
NTP, written in Verus and proved against its contracts.

- `src/` is the verified library:
  - `websocket_key`: base64 of the 16-byte `Sec-WebSocket-Key`.
  - `handshake`: the upgrade request, the reader that collects the server's
    answer until the header ends, and the check of that answer.
  - `notification`: reading the task name out of a notification.
  - `frames`: what each received frame calls for.
  - `endpoint`: the `host:port` and TLS settings, IPv4 literals and DNS answers.
  - `ntp`: clock stamps, turning an NTP answer into the clock's microseconds,
    and the decisions of the synchronisation loop.
  - `display`: the three-line message board and where each line is drawn.
  - `text`, `error`: byte search, UTF-8 facts, the session error.
- `app/` holds the firmware tasks that do the device and network work and call
  the library (they build for the device only).
- `tests/` runs the library on concrete values.
