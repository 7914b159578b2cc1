# Hyperion — verified core

Hyperion screens a satellite constellation against tracked debris, accepts
commanded burn sequences and keeps satellites in their slots. This crate holds
the parts of that work that decide rather than integrate, written in Verus and
proved against their contracts:

- `src/ids.rs` — reading API object ids (`SAT-Alpha-04`, `DEB-99421`) and object types.
- `src/catalog.rs` — the catalogue of tracked objects: filing telemetry reports,
  lookups, end-of-life declarations, the planning of autonomous evasion and
  recovery burns, station-keeping reports, the snapshot split and slot status.
- `src/maneuver.rs` — acceptance of a burn sequence, all or nothing, and the reply texts.
- `src/uplink.rs` — store-and-forward: burns for a satellite out of contact are
  held and sent when a ground station sees it again.
- `src/grid.rs` — the spatial-hash neighbour search behind conjunction screening.
- `src/screening.rs` — which screener runs on a population.
- `src/queue.rs` — removal of executed burns from the queue.
- `src/partition.rs` — splitting screening work among worker threads.
- `src/clock.rs`, `src/models.rs` — timestamps and the API replies without physical quantities.
- `src/indices.rs` — index lists shared by the above.

`app/` is the HTTP service around the library: request handling, the
floating-point orbital mechanics (RK4 with J2, frame conversions, Brent and
golden-section refinement), line of sight to the ground stations (read from
`ground_stations.csv`), the choice of each autonomous burn's delta-v, the audit
log and the map projection.
