# cgd1_tools

Verified core of the tools for the Qingping CGD1 Bluetooth alarm clock: the `cgd1`
command-line program and the logic behind the desktop controller.

- `src/` is the library, written in Verus. Every function carries a contract that Verus proves:
  reading scan and monitor durations (plain seconds or ISO 8601), the controller
  configuration, alarms and when they next ring, the alarm table, the `HH:MM` time field and its
  key handling, the time zone list, WAV data chunks, custom ringtone signatures and their order,
  device addresses, the list of known devices across scans, the periodic scan and staleness
  check, device events, the battery indicator, the clock face and the interactive session's
  reading of a line. Public proof functions named `law_*` state properties that span calls.
- `tests/` runs the library on concrete values.
- `app/` is the `cgd1` program: argument parsing, Bluetooth, terminal and file I/O around the
  library.
