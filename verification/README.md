# langgraph

A graph-execution library in Verus: state graphs of named nodes, merged
into a shared state superstep by superstep, with routing commands,
checkpointed threads, and prebuilt tool, validation and agent nodes. The
library's functions carry contracts that Verus proves. The in-memory saver
is the one part whose calls are not related to each other: its store sits
in a cell, so what `get` and `list` return is not tied to what `put`
stored (the store type it wraps, `CheckpointStore`, is specified exactly).

Code supplied by the library's users (nodes, routers, tools, channels,
reducers, validators, savers, audits, sinks, input sources) implements the
library's traits.  Each such trait has a spec function describing what an
implementation may return (true unless the implementation says more), and
the library's contracts are stated in terms of it: what is handed to the
user's code is fixed, and what the library does with each answer is exact.
The library keeps each piece of user code it is given in a `Slot`, so that
its contracts can say which piece a graph, node or builder holds.

## Layout

- `src/` — the verified library.
  - `text`, `json`: character-sequence order, decimal rendering and parsing;
    the value model (`Value`) and the sorted string-keyed map (`StrMap`).
  - `channel`, `state`: how the writes of one superstep merge into the state
    (last value, topic, binary aggregate, reducers) and how channel versions
    advance.
  - `runtime`, `command_policy`: node outputs and routing commands, and the
    policy that resolves them.
  - `graph`: building a graph and compiling it, with the checks that a
    compiled graph passes (endpoints exist, conditional edges are sound, the
    finish point has no outgoing edge and can be reached).
  - `executor`: the sequential superstep executor and its event stream; a
    run is stated as a chain of supersteps, each node reading the state at
    the start of its step and all patches applied together; its metadata
    (supersteps, channel versions, command trace) is stated over the same
    chain.
  - `event_json`: the JSON form of run results and stream events that the
    command line prints.
  - `checkpoint`, `bridge`: checkpoints, savers (an in-memory one), and
    running threads that record each run as a numbered checkpoint and resume
    from the latest one.
  - `tool_node`, `validation`, `react`, `react_template`: prebuilt nodes and
    the tool-calling agent graphs built from them.
  - `cli`: the command line's parsing, presets and decisions.
- `tests/` — tests that run the library.
- `app/` — the `langgraph-cli` program and everything that does I/O: reading
  input and turning JSON text into values and back (the values themselves
  are shaped in `event_json`), SQLite and PostgreSQL checkpoint savers,
  asynchronous entry points.
