# skope

Skope benchmarks an application: a runner captures the system state around a script, a
server aggregates execution records sent to it, and captures can be compared.

- `src/` is the verified library: safe names and report paths, the aggregation store and its
  comparison, the request and capture-state decisions of the receivers, the report schedule,
  host and port resolution, the dashboard's navigation and the integer geometry of its charts.
- `app/` is the program around it: networking, files, the system snapshot, the terminal
  dashboard, and the floating point measurements (times, memory, CPU) that go with each record.
- `tests/` exercises the library on concrete values.

The aggregation store (`ExecAgg`) keeps its entries in a `Vec` of name and aggregate pairs,
with a type invariant that no name occurs twice, rather than in a `HashMap<String, _>`: its
view is still a map from names to aggregates, but the order of names is then fixed (first
recorded, first listed), so comparisons and the order of their exclusive and missed names are
stated exactly, and lookups by `String` key can be proved, which the hash map's specification
does not give for string keys.
