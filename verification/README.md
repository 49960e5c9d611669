# tuxcleaner

A safety-first cleanup tool for Linux: it scans known caches, uninstalls applications, explores
disk usage, removes old build artifacts and updates itself from checksum-verified releases.

- `src/` is the library. It holds everything that decides: which paths and commands are allowed,
  what a scan offers, what is asked before anything is removed, and what is shown. Each function
  carries a contract that Verus proves.
- `app/` is the program around it: arguments, terminal, file system, processes and network. It
  hands the library plain facts and does what the library asks for.
- `tests/` runs the library on concrete values.

Where to start reading:

- `guard.rs` and `command.rs`: what may be removed, and which commands may run.
- `executor.rs` and `recorder.rs`: every removal is judged again before it happens, and every
  command that runs is accounted for.
- `scanner.rs` and `accepted.rs`: what a scan offers is what the executor accepts.
- `cli/run.rs` and `tui/app.rs`: nothing is carried out before it was agreed to.
- `update.rs`: only a verified program is installed.

Proof functions under the heading `Laws` state what holds of the library as a whole.
