# drift_lib

The verified core of the Drift drone mission simulator, written in Verus.

- `src/` is the library. Every function in it carries a `requires`/`ensures`
  contract that Verus proves: alert management and the anomaly rules that drive it,
  sensor fault bookkeeping, the flight-mode state machine, the mission event log,
  the occupancy grid and the A* planner (its routes are proved legal and cheapest),
  route smoothing and following, the mission script parser, the replay controller,
  and the CSV and HTML exporters.
- `app/` is the unverified shell around it: physics and sensor models in floating
  point, the simulation loop, the SQLite store and the JSON data transfer types.
- `tests/` exercises the library on concrete inputs.
