# hprss_sim

A discrete-event simulator for real-time scheduling on heterogeneous platforms
(CPUs, GPUs, DSPs and FPGAs), written in Verus. Every function of the library is
verified. Those that state no contract of their own are methods of a trait,
whose contract stands in the trait or with its implementations.

## Layout

- `src/` is the library.
  - Data: `time`, `ids`, `task`, `dag`, `device`, `job`, `event`, `policy`.
  - Device timing and preemption: `virtual_device`.
  - Engine: `event_queue`, `device_manager`, `transfer_manager`,
    `dag_tracker`, `metrics`, `engine`.
  - Model of the engine: `sim` holds the state and its transitions, `drive`
    says how a scheduler drives them, `pace` shows that a run ends, `course`
    which events come up on the way, `sound` that every step keeps jobs, devices
    and queues consistent whatever the scheduler answers, and `agree` that runs
    which start alike end alike.
  - Algorithms: `scheduler` is the interface, `schedulers` holds the
    implementations, `catalog` names them.
  - Experiments: `platform`, `replay`, `analysis`, `experiment`, `sweep`,
    `report`.
  - Helpers: `arith`, `select`, `search`, `order`, `text`, `words`, `json`.
- `tests/` runs the library on concrete values.
- `app/` is the command line: arguments, files, floating point and threads.

## Units

Times are nanoseconds. Speeds are relative to the reference speed, bandwidths
bytes per nanosecond and power watts, each an exact quotient (`arith::Rate`).
Energy is picojoules. Reported quotients are kept exact too (`arith::Ratio`).

## What is not proved

`json::to_json_string` states what `serde_json::to_string` makes of a string
slice; that statement is taken as given. A scheduler from outside the library is
bound by what it states of its answers, and by nothing where it states nothing.
