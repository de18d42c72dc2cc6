# memory_strategy

Selects the memory strategy that a generation request runs with, and drives the lifecycle of the
run. Everything under `src/` is verified with Verus.

| module | what it holds |
| --- | --- |
| `selector` | the selection itself, and what its answer means |
| `laws` | what holds of every selection |
| `evidence` | evidence records, candidates, and how one candidate is admitted or excluded |
| `provider` | what a provider declares |
| `ladder` | strategies, rungs, and the compositions that a binding may publish |
| `preference` | the caller's preference, read from a token, a setting or a JSON request |
| `margin` | widening of stale and estimated peaks |
| `budget` | the live budget |
| `binary64` | binary64 numbers, computed on their bit patterns |
| `verdict` | evidence verdicts and their aggregation |
| `lifecycle` | the protocol around one provider run |
| `text`, `json` | text comparison, and what is read of a JSON value |

Quantities of memory and margins are IEEE 754 binary64 numbers. The library holds them as bit
patterns and computes on integers, so that every rounding is part of a contract.

`app/` holds what surrounds the library: the process environment, the log, and the calls into the
engine crates.
