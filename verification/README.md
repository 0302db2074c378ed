# Data AI Orchestrator

A domain-free core for durable, policy-driven data and AI workflows, written in Rust
and verified with Verus.

- `src/` is the library. It decides: which workflows are valid, which step a worker
  may claim, what becomes of a run when a result comes in, when a lease runs out, when
  a run is cancelled or finished, and what is written down of it all. Every record has
  a mathematical model, its view, and every decision is a function on these models
  that the code is proved to compute.
- `app/` is what waits: the traits that an application implements, the executors, the
  process-local repository behind a lock, and the PostgreSQL adapter.
- `tests/` runs the library.

## The library

| Modules | What they hold |
| --- | --- |
| `ids`, `text`, `ordered`, `views` | identifiers, text, ordered maps and sets, views |
| `json`, `clock` | what comes from `serde_json` and from the system clock |
| `policy`, `task`, `workflow`, `graph`, `manifest`, `catalog` | definitions, and whether they can be run |
| `evaluation` | metrics and gates |
| `record`, `event`, `validation` | the records of runs, the event log, what is accepted |
| `claim`, `transition` | what happens to a step that is claimed, and to its run |
| `store` | the process-local repository |
| `locked` | one run under a row lock |
| `runtime`, `durable` | the decisions of the executors |
| `artifact` | artifacts addressed by content, and cached outputs |
| `laws`, `run_laws`, `local_laws`, `repository_laws`, `locked_laws` | what holds across decisions |

Each operation of the repository comes twice: one takes the time as an argument and is
stated exactly, the other reads the clock once and is stated for whatever it shows.

Metrics are numbers in IEEE 754 double precision, held by their bits, with the order
and the equality of floating point.

## Execution semantics

- Workflow definitions are validated as acyclic before submission.
- Retry and fallback decisions are part of the step's state, with the retry delay kept
  in it, so workers do not hold leases while sleeping. A fallback is selected once.
- Claims carry a worker id, an attempt number and a fencing token. A claim that was
  lost never comes back.
- Results and the events that tell of them are committed together. Events are numbered
  in order and can be read in parts.
- A run succeeds only with all of its steps done and all of its gates passed.
