# rustd

The decisions of a service manager, as a verified library, and the manager
around it.

`src/` is the library. Every function in it is proved against its contract:

- `unit`, `names`, `text`, `paths`, `sys`: units as they are loaded, and what
  the other modules are written in.
- `deps`, `job`, `manager`: the start order of a transaction, the job queue and
  registry, and the manager's state machine. `manager::turn` says which work
  follows which; the other modules of `manager` say what each piece of work
  does to the state and what is to be done outside.
- `event`: tokens, signals, timers and watches of the event loop.
- `ipc`, `ipc_server`, `dbus`: the control socket's frames and requests, and a
  unit as it is seen on the message bus.
- `journal`: entries, datagrams, the ring, rotation, and the message catalog.
- `boot`, `emergency`, `generator`, `mount_setup`, `filesystem_unit`,
  `dynamic_user`, `kill_context`, `limits`, `spawn`, `glob`, `logind`: what is
  decided at boot, for mounts, users, signals, limits, processes and sessions.
- `ml_weave`: the integer side of the scheduling advice.

`app/` is the program: system calls, sockets, threads, the message bus, JSON,
and floating point. It performs what the library decides and reports back. It
links against the native helper library (`app/native.rs`) and against a backend
that defines `rustd_host` (`app/host.rs`): unit files, service processes,
control groups and the buses.

`tests/` runs the library.

What is trusted: the comparison of string slices, `String::push` and
`String::push_str`, decoding UTF-8 (`src/text.rs`); and of the machine, the
numbers that libc gives to the signals, errors and resource limits that differ
between architectures, `libc::SIGRTMIN`, and the byte order (`src/sys.rs`).
