# syscallcage

A cage for AI agents on Linux: a policy says which files an agent may read and
write, which domains it may reach and which executions are forbidden; kernel
probes report what the agent does, and the enforcer allows, logs or kills.

The library under `src/` holds the decisions of the tool, each with a contract
checked by Verus:

- `policy` — building a policy from its file, glob matching, domain and syscall
  rules, and finding a project's policy file (`policy::discovery`);
- `enforcer` — the verdict on one event, and the kill;
- `policy_sync_compiler` — the prefix tables of the synchronous kernel hooks;
- `kernel` — a model of the decisions the kernel hooks take on their fixed-size
  buffers: the hooks themselves run from a separately built eBPF object, which
  this crate loads but does not build, so these functions state and prove what
  that object is meant to decide;
- `monitor` — decoding probe records and DNS responses, tracepoint and BTF
  offsets, the mode of enforcement and the fall-back to the reactive probes;
- `policy_generator`, `path`, `sorted` — drafting a policy from a session log;
- `watch` — checking the agent's command line and deciding on restarts;
- `doctor`, `logging` — the environment report and log entries;
- `text` — character-level helpers.

`app/` is the command itself: argument parsing, files, the kernel object (aya),
processes (fork, exec, wait) and JSON/YAML. `tests/` exercises the library.
