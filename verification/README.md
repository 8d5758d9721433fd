# rustylink

Signal-target resolution and model utilities for Simulink block diagrams,
written in Verus: every function of the library under `src/` carries a
contract that Verus proves.

- `connection_targets/` resolves, for every block and line of a model, the
  Simulink paths it is connected to: base targets of lines, forwarding
  through bus creators and selectors, muxes and demuxes, subsystem
  boundaries, names and test points flowing back upstream, and the caches
  the resolver answers from. It follows the single-pass resolver: one
  recursive walk of the system tree that resolves each system once, with a
  bounded fixpoint of downstream and upstream sweeps inside each system. Its
  targets carry a path, a signal name, a resolve hint, an element index, an
  origin, a signals-only flag and a test point; the later multi-pass
  resolver's extras (block-type tags, signal-name aliases, BusAssignment and
  control-port routing, variant-aware summaries) are not part of it.
- `corner_ops` edits the corner offsets of lines while keeping the
  positions downstream; `line_coloring` finds which lines are adjacent and
  the order in which they are coloured.
- `signature` fingerprints what resolution depends on, leaving geometry out.
- `labels`, `line_style`, `live_text`, `dashboard`, `math_inputs`,
  `library_paths`, `signal_routing`, `variants` and `block_code` hold the
  smaller rules on blocks and their parameters; `text` the character-level
  helpers; `model` and `properties` the data model.

`app/` holds what stays outside the verified library: the process-wide
sim/codegen mode, progress reporting, printing, serde forms of the target
types and the floating-point live-value formatting.
