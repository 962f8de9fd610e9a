# wrk3

A load generator for HTTP servers. A Lua script describes the workload: stages with a duration
and a rate each, and a main function that virtual users run once for every event of the
schedule.

## Layout

- `src/` is the library, verified with Verus. It holds the rules of the load generator and no
  input or output.
  - `binary64`, `accuracy`, `dt`: binary64 arithmetic on bit patterns, how near its results are,
    and lengths of time.
  - `value`, `args`, `config`, `http_request`, `metric`, `forms`, `source`: what scripts hand over.
  - `cli`: the command line of a script.
  - `schedule`, `dispatch`, `run`: when events take place, which virtual user takes them, and the
    run of a workload.
  - `reactor`, `vu`: the connection of a virtual user, and its iterations.
  - `report`, `lines`, `text`, `maps`: what is shown, and the tools for it.
- `app/` is the program around the library: the Lua interpreter, sockets, files and the clock.
- `tests/` runs the library.

The run of a workload and the connection of a virtual user are state machines: the program
performs an action, hands back what happened, and gets the next action.

Functions marked `external_body` call other crates and std; what is claimed of them stands in
their contracts and doc comments. Numbers with a fraction are held as the bit patterns of
binary64 numbers, and the program converts them.
