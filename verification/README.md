# adb_rs

A client for the Android Debug Bridge host protocol.

- `src/` is the verified library: the commands and the request text each
  sends (`commands`), the wire format — four hexadecimal length digits,
  status words, UTF-8 text (`protocol::wire`) — the errors (`protocol::adb_respond`),
  the shell-session command (`shell`), and the request writers and reply
  readers (`utils`): framing, status dispatch, the device-list parser and
  the reader that collects shell output up to the `"/ $ "` prompt.
- `app/` is the asynchronous client around it: the TCP connection, the
  `tower` services and the per-command reply handlers, which do the reading
  and writing and leave every decision to the library.
