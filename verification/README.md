# blueos_logic

The decision logic of two BlueOS services and of the BlueOS requirement catalog, written in
Verus with its contracts proved.

- `src/calibration`: the sensor-calibration service: commands, events, job progress, the
  snapshot it keeps, and the wire texts it exchanges with the autopilot.
- `src/autopilot`: the autopilot's preflight state machine and its wire keys.
- `src/jobs.rs`, `src/effect.rs`, `src/sensor.rs`: the job graph, effects and sensors that
  both services share.
- `src/catalog`: the requirement catalog: service extraction from the startup script,
  requirement ids and statements, the contamination lint, functional and system composition,
  the links between system and functional requirements, assumptions, availability, structure validation, the journey coverage matrix and the
  consensus clustering of partitions.
- `src/text.rs`: character-level helpers with their specifications.
- `tests/`: tests on concrete values.
- `app/`: the `blueos` program: command lines, file reading, report loading, and an in-process
  host that runs the two services.

Verification: `verus` on `src/lib.rs`; every public function states in `ensures` what it
returns. The laws of the library are the public proof functions in `src/calibration/laws.rs`,
`src/calibration/wire.rs`, `src/catalog/laws.rs` and `src/catalog/linking.rs`.
