# reduced

A daemon that relays Oxidized configuration-change and backup-failure
alerts by mail and to Discord, with a small client that Oxidized hooks call.

- `src/` is the verified library (Verus): ANSI colour handling and HTML
  rendering (`ansi`), JSON escaping and Discord payloads (`discord`), mail
  bodies and `mail` arguments (`mail`), git details and reports (`git`),
  the client-daemon request format (`request`), the daemon's state machine,
  alerts and notification decisions (`daemon`), and character helpers
  (`text`).
- `app/` is the program around it: command line, daemonising, the Unix
  socket, running `git` and `mail`, HTTP, the clock and the log file.
  Run as `reduced-daemon start|stop|status`; the same program started under
  the name `reduced` (for example through a link) is the client,
  `reduced diff|failure`.
- `tests/` runs the library on concrete inputs, and compares the ANSI and
  diff-line handling with the `regex` crate.
