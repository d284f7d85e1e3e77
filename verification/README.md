# krom

A fanotify-based ransomware detector for Linux. The daemon (`kromd`) watches a
mount point; a process that writes many files close to each other climbs in
suspiciousness and, above a configured level, is killed together with its
relatives. An allow list and a deny list of executables (SQLite) can override
the judgement. Two helper tools come with it: `scanner`, an interactive
watcher, and `cryptor`, which xors every file below a directory (a stand-in
for ransomware, for testing).

## Layout

- `src/` — the library, verified with Verus:
  - `event_handler.rs`: the per-process statistics and every decision taken
    on an event (answers to permission requests, suspiciousness updates,
    kills, flushing idle processes), with the invariants they keep;
  - `path.rs`: Unix path components, path equality and the distance of two paths;
  - `fanotify.rs`: event masks, decoding of event records, encoding of answers;
  - `procfs.rs`: parsing `/proc/[pid]/stat`, decimal texts, `/proc` link paths;
  - `kill.rs`: which processes are killed, and with which signal;
  - `main_loop.rs`, `daemonizer.rs`, `cryptor.rs`, `config.rs`: the remaining
    computations of the daemon and the tools.
- `app/` — the executables: system calls, files, SQLite, logging, and the loops
  that feed the library what they read.
- `tests/` — tests of the library.
