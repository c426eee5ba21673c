# vectorguard

The verified core of a runtime security daemon, written in Verus.

- `src/` is the library. Each public function carries a `requires` / `ensures`
  contract over spec functions and views, and Verus proves every body against
  it: event normalization from Falco, auditd and Tetragon records, scope
  filtering, the fast-path rule engine (first match wins, exclusions take
  precedence), kernel block keys, incident records, the per-PID context
  window, the AI advisor's pattern tracking and prompt framing, approval file
  naming, config editing, argument parsing and the TUI state machine.
  Public proof functions state the laws that span several calls.
- Calls into outside crates (`glob`, `toml`) and a few std functions stand
  behind small trusted wrappers whose doc comments say what is believed of them.
- `app/` is the unverified shell: `main`, file and network I/O, async loops,
  embeddings and vector search (floating point), eBPF maps and terminal
  drawing. It hands the library plain values and acts on what comes back.
- `tests/` runs the library on concrete inputs with the real outside crates
  linked.
