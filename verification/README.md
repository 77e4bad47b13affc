# spindle

A small harness for local automation: events are stored in an append-only log,
routed to actions that extensions expose, and the events that those actions
produce are routed again.

The rules are in `src/`, a library verified with Verus. It decides; it does no
I/O of its own. The program in `app/` reads and writes the state directory,
starts extension hosts, listens on the Unix socket, and asks the library at each
turn what comes next.

## What is proved

- A dispatch comes to an end whatever the actions answer, and what it does is a
  depth-first walk through the events they produce (`depth_first`).
- An action runs only where an installed route, or the request itself, grants all
  it requires. A direct invocation grants nothing, and a continuation handle no
  more than the invocation that received it (`authority`, `handler`).
- A continuation handle stands for its grant until it expires, and works once
  (`continuation`).
- Installing keeps the registry in order: no two extensions own the same event,
  action or capability (`registry`, `install`).
- In a registry that passes validation every route leads to an action that an
  extension handles (`routes`, `authority`).
- Sessions of extension hosts are used, replaced and dropped as their keys say
  (`runtime`).
- What was framed as a message, and what was written to a lock file, is read back
  (`protocol`, `lock`).
- A lock that a live process holds is never taken and its file never removed; who
  waits for it fails when its time is up, and not before (`contention`).

## What is trusted

- `serde_json` reads JSON text (`json`), `sha2` hashes executables
  (`registered`), `uuid` makes identifiers (`identity`), and `String::from_utf8`
  decodes UTF-8 (`protocol`). Each is behind one small function whose contract is
  taken as given.
- `app/` is not verified. It checks what the library asks to know about files,
  processes and sockets, and carries out what the library answers.

## Layout

- `src/`: names, paths, JSON (`text`, `paths`, `validate`, `json`, `name_map`,
  `text_set`); manifests and the registry (`manifest`, `registration`,
  `registered`, `surface`, `registry`, `stage`, `install`, `routes`, `policy`);
  events and dispatch (`event`, `context`, `visible`, `installed`, `dispatch`,
  `depth_first`, `authority`, `continuation`); requests and the command line
  (`protocol`, `handler`, `server`, `cli`); extension hosts (`host`, `runtime`,
  `test_host`); state files (`store`, `lock`, `contention`).
- `tests/`: tests of the library.
- `app/`: the program.
