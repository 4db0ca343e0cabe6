# Organizarr

A companion of qBittorrent that organizes torrents with state-aware rules. In every polling
cycle it lists the torrents of each configured server and decides what to do with each of them:
apply a rule of the user, move the payload to the library, relocate it and keep seeding, send it
to the seeding category, or delete it.

The decisions are made by a library that is verified with Verus; the program around it does the
input and output.

## Layout

- `src/config.rs`: the configuration, its defaults, durations
- `src/torrent.rs`: torrents, their states, and the tracker of state transitions
- `src/rules.rs`: which decision applies to a torrent, and the steps of rules and deletions
- `src/client.rs`: the qBittorrent WebUI API: which request comes next, what a reply means
- `src/transfer.rs`: where a payload lies, where it goes, and the order of a move
- `src/discovery.rs`: import of remote path mappings from *arr instances
- `src/cycle.rs`: one polling cycle
- `src/logger.rs`: log settings
- `src/shown.rs`: paths and texts as messages show them
- `src/paths.rs`, `src/text.rs`, `src/name_map.rs`, `src/binary64.rs`: paths, texts, maps keyed
  by text, and double-precision numbers by their bits
- `app/`: the program: configuration file, HTTP, file operations, logging, the main loop

An operation that needs the outside world is a function of what happened so far. It says what to
do next; the program does it and calls the function again. Functions whose names start with
`law_` state properties of the library as a whole.

## Paths

Paths are read as the host of the program writes them. On Unix, components are separated by
slashes. On Windows, backslashes separate them too, and a path may start with a drive, a network
share, a device or a verbatim prefix (`\\?\...`), behind which only backslashes separate.

## Remote path mappings

Mappings are imported, verified against this host and kept fresh. Payloads are located by
`path_prefix` and `root_path`.
