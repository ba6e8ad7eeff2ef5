# collector

A collector for nodes of a Kubernetes cluster, as a verified library with a program around it.

The library (`src/`) is written in Verus. Every function states in its contract what it returns or
changes, and the laws that hold of the library as a whole are public proof functions.

- `resctrl`: monitoring groups of the resctrl file system. What is done to the file system is
  stated as the sequence of calls to an `FsProvider` and their answers.
- `nri_plugin`: a plugin of the container runtime that keeps a resctrl group for each pod and moves
  the tasks of its containers there, with retries.
- `resctrl_collector`: samples of the last level cache that the pods' groups occupy.
- `nri_enrich`: labels of containers for rows that name a control group.
- `nri_init`: enabling of the runtime's plugin interface on a node: options, detection of the
  runtime and its version, edits of its configuration, restart and verification, and the course
  from one to the next.
- `trace`: analysis of scheduling traces: CPU time, concurrency, time off the CPU, and order of
  timestamps.
- `health_server`, `error_report`: answers about the health of the process, and reports of lost
  events.
- `text`, `decimal`, `search`, `path`, `str_map`, `schema`, `batch`: what the above is built from.

Calls into other crates (`toml_edit`, `semver`, `regex`, `humantime`) and a few of the standard
library stand behind small functions marked `external_body`, each with a contract that says what is
taken for granted of the call.

The program (`app/`) does the input and output: files, commands, sockets, channels and Parquet
files. The tests (`tests/`) run the library.
