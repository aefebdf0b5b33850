# aegis

A verified core for running a program inside a Windows AppContainer sandbox
with file, network and process allow-lists and a JSON-lines audit trail.

- `src/` is the library, verified with Verus:
  - `access` — access levels and their generic access masks;
  - `audit` — audit events, their JSON lines, and the tail of a log;
  - `config` — the configuration, its defaults and template, and what a run
    derives from it (grants, sandbox identity, proxy arguments);
  - `container` — the `rappct` calls that create and delete a profile and
    add ACL entries, and the receipts that only a successful call builds;
  - `json` — JSON string literals, decimal numbers, compact objects;
  - `launch` — the command line, creation flags and proxy environment of a
    sandboxed launch;
  - `proxy` — the loopback CONNECT proxy's allow-list, request-head reading,
    replies, audit lines and command line;
  - `sandbox` — the AppContainer profile, file grants (through `rappct`),
    the process allow-list;
  - `text` — the string operations the rest relies on, stated over
    `Seq<char>`.
- `app/` is the program around it: the command line (`init`, `run`),
  the proxy binary's sockets, the Windows process launch, file I/O, and the GUI
  backend commands.
- `tests/` runs the library on concrete values.
