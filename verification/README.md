# rustible

The core of an Ansible-style automation engine, verified with Verus.

- `src/` is the verified library:
  - `inventory/`: hosts, groups and their variables; the INI, YAML and JSON
    inventory formats (`ini.rs`, `loader.rs`, over the document values of
    `data.rs`); host patterns (`pattern.rs`, `select.rs`, `resolve.rs`); the
    group graph and the order in which variables apply (`graph.rs`,
    `hierarchy.rs`).
  - `modules/`: what each module decides — package plans, file attributes,
    line editing, command words, parameter reading, fact parsing, the
    wrapping of Python modules — with the shell quoting they share.
  - `lockfile.rs`, `task_files.rs`, `metrics/`: lockfile checks, the
    confinement of included task files, counters and gauges.
  - `text.rs`, `numbers.rs`, `assoc.rs`, `patterns.rs`: text, numbers,
    ordered key/value lists, and regular expressions behind named results.
- `app/` is the input and output around it: reading inventories from disk,
  running processes, editing files on the control node, and turning YAML and
  JSON documents into the library's values.
- `tests/` runs the library on concrete values.

## What is kept elsewhere, and what is shaped differently

- Ordered maps (`IndexMap`) and hash maps keyed by strings are held as ordered
  key/value lists (`assoc.rs`, `Vec<(String, V)>`, one entry per key, in
  insertion order). Their contracts speak of `Seq`s of pairs, where lookup,
  insertion and the order of entries can all be stated and proved; a string-keyed
  map of std or of an outside crate would leave those facts unproved.
  Service labels, annotations and selectors keep their given order for the
  same reason.
- Floating-point metric values are fixed-point integers (thousandths).
- A lockfile keeps its roles, collections and resources as vectors sorted by
  name, each name once (the order of a sorted string map); its integrity check
  works on what was found at each resource's location (`lockfile::FileFound`),
  and reading the files is left to the caller. Times are seconds since the
  Unix epoch, handed in by the caller.
- A package module's run (apt, dnf, pip) is a step function
  (`modules::packages::next_stage`): the caller sends the commands it names and
  hands back what came of them.
- The file module is split the same way: on the control node,
  `modules::file_plan::file_plan` takes what was found at the path and gives
  the steps and the report (`app/file_runner.rs` looks and acts); on a remote
  target, `modules::file_remote::remote_plan` gives the shell commands to send
  and `attribute_commands` the `chmod`/`chown` that follow a fresh probe.
- A remote file path is quoted with the shell quoting of `modules` (no bare
  `+`); the empty word is quoted as `''`.
- Left out of the library, because they hold or drive outside values that it
  cannot carry: loading and saving lockfiles as TOML, the metric registries
  and histograms, module dispatch through a registry, loading included task
  files from disk, finding, bundling and running Python modules, the raw
  `definition` document of a service or ConfigMap, and running commands over a
  connection to a remote target.
