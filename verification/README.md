# dryer

Dryer is a control platform for 3D printers and other motion-control
machines. A machine is a typed, validated graph of controllers,
components and a safety profile; a deterministic resolver turns that
graph and a local package registry into locked, explainable firmware and
runtime configuration. This crate is the
verified library of that toolchain, written in Verus: every function in
`src/` carries a contract that Verus proves.

## Layout

- `src/schema.rs`, `src/manifest.rs`, `src/spans.rs`: the manifest model,
  its validation and the source spans of its keys.
- `src/package.rs`, `src/package/`: package references, registries,
  content snapshots and hashes, and the board, chip, device, machine,
  safety-profile and workflow payload checks.
- `src/resolver.rs`, `src/resolver/`: the resolver's phases — dependency
  resolution (`packages`), board and chip loading (`targets`), template
  expansion (`expansion`), connector allocation (`allocation`), electrical
  validation (`electrical`), safety coverage and partitioning (`safety`),
  artifact planning (`artifacts`) — the order in which they run
  (`stages`), and the explainable result (`model`).
- `src/lock.rs`, `src/canonical.rs`, `src/generate.rs`: the `machine.lock`
  model and its validation, its canonical JSON and hash, and its
  generation from a resolution.
- `src/firmware.rs`, `src/flash.rs`, `src/flash/`: controller firmware
  manifests, build plans and image checks; the registry checks of a dry
  run (lock, registry source, board pin, manifest and content hash drift),
  the comparison of a lock with the registry, flash planning and
  execution.
- `src/protocol.rs`, `src/client.rs`, `src/clock_sync.rs`,
  `src/daemon.rs`, `src/gcode.rs`, `src/resource.rs`: the controller wire
  protocol, the clock exchange and estimator, the controller daemon,
  G-code lowering and resource matching.
- `app/`: the command-line program (`check`, `lower`, `discover`,
  `resolve`, `lock`, `verify-lock`, `flash-plan`, `hash`, `board`,
  `device`, `daemon`): file and USB I/O, YAML and JSON reading and
  writing, quantity arithmetic, and the resolution driver that reads
  package payloads between the library's phases.
- `tests/`: tests of the library through its public API.

## Contracts

Public functions state their results over spec functions of plain values
(`Seq`, texts as `Seq<char>`, integers). Findings are stated exactly:
which diagnostics, in which order, with which codes, messages and paths.
Laws that span functions are public proof functions next to the code they
speak of, for example `allocation_claims_each_connector_once`,
`allocation_reserves_each_timer_channel_once`,
`resolution_selects_the_highest_satisfying_versions`,
`partition_binds_each_resource_once`,
`controller_bindings_are_sorted_and_complete`,
`stages_record_phases_in_order` and
`proper_prefixes_of_command_frames_are_truncated`.

Clock synchronization over frames is not provided: the wire format of
clock request and response frames is not defined in this crate, so
`client::ClockExchange` and `clock_sync::ClockSync` work on decoded
samples, and there is no frame-level clock session.

Calls into `sha2`, `semver` and `yaml-rust2` stand behind small trusted
wrappers whose contracts say what those crates document; each names the
outside function it calls.
