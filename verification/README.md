# durable-streams

The core of a server for durable, append-only streams: what is stored, who is
told about it, and what happens when a stream goes away. The library decides;
the application reads clocks, writes files and talks to the network.

## The library (`src/`)

Everything in it is verified with Verus. Each type that matters has a
mathematical view, and each function says what it does to that view.

- `store`: streams on local disk. Names and lanes of files, the state of a
  stream, creating, forking, deleting and retiring streams, the published list,
  sidecars, and bringing everything back after a crash.
- `store_manifest`: the identity of a store, and whether it is the expected one.
- `retirement`: admission of streams to be cleaned up, physical lanes with
  reserved capacity, retries with growing pauses, and cooling down.
- `subscriptions`: webhook and pull-wake subscriptions. Requests and replies,
  membership by name and by pattern, wakes, leases, acknowledgements, tokens,
  signing keys and their rotation, and resuming after a restart.
- `subscription_auth`: which service tokens may claim work.
- `telemetry`: what is measured, under which names and labels.
- `cut_points`: holding one exact stream at one exact point.
- `clock`, `text`, `path_map`: readings of time, texts, and maps in the order of
  their keys.

Laws that span several functions are public proof functions whose names start
with `law_`.

What outside crates compute stands behind small functions in the module that
needs it. Their comments name the outside function and say what is believed of
it.

## The application (`app/`)

Threads, tasks, files, sockets, exporters, and the JSON forms of the library's
types. It takes readings and outcomes to the library and does what comes back.

## Tests (`tests/`)

Scenarios on concrete values, for the rules as well as for the outside crates
behind them.
