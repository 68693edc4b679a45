# agent-block-core

The rules of a host that runs agent blocks written in Lua, verified with Verus.

A host gives a script a shell, an HTTP client, editable files, a few SQLite
databases, an event bus and a kernel that keeps a log and a budget.  What such
a host *decides* is plain computation on plain values: which headers a request
carries and which of them never reach a dump, which lines of a file an edit
replaces, which SQL a time-series query becomes, whether a request may reach
the bus, what a session's options ask of the kernel, in which order a run is
set up and torn down.  That is the library under `src/`, with contracts.

| module | what it decides |
|--------|-----------------|
| `bridge::config` | paths and limits out of settings |
| `bridge::fs` | versions, line edits, rolling back |
| `bridge::http` | requests, event streams, the dump of both |
| `bridge::knl` | the arguments, answers and failures of `knl.*`, and the Lua declarations of its types |
| `bridge::llm` | reading code and JSON out of what a model wrote |
| `bridge::repair` | which texts the JSON repair comes back from |
| `bridge::sh` | process groups and how they are ended |
| `bridge::tools` | the order of the bridges, and the tool modules |
| `bridge::ts` | the SQL of the time series and its rows |
| `bus` | events, the dispatcher, the HTTP source |
| `host` | the sources, the databases, the mesh and the course of a run |
| `embedded` | the modules a host carries, and the seal on some of them |
| `calendar`, `json`, `paths`, `table`, `text` | what the others are written with |

Properties that span several functions are stated as public proof functions
whose names begin with `law_`.

`app/` is the host around it: Lua virtual machines, sockets, files and
processes.  It carries out what the library decides.
