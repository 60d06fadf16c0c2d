# backend

Instruction selection for the QKV tensor accelerator, verified with Verus.

The library (`src/`) holds the logic of the compiler backend:

- `ir`: the tensor language (`TensorOp`, `TensorInfo`), element types, buffers,
  PII graphs (the instruction-level program handed to memory allocation), kernel
  metadata, and `EGraphSnapshot`, a read-only copy of an e-graph indexed by class id.
- `isel::rewrites`: rule files, the side conditions, payloads and output metadata of
  the IR-to-ISA rules, and the unions of alpha injectivity.
- `isel::extractor`: constant detection, the fast (greedy) and slow (enumerating)
  extractors, alpha extraction, and the conversion of extracted expressions into PII graphs.
- `cost::json`: JSON text read (by `serde_json`) into plain `JsonItem` values.
- `cost::smoothe`: the interface to the SmoothE extractor (serialized e-graph, node ids,
  reading its solution file and laying the solution out as a PII graph).
- `pipeline`: the decisions of the driver (flags, stopping, best kernel, when the
  rewrite hook extracts, what follows each stop of the rewrite runner).

Each public function states its result in its `ensures`; the laws (well-formed PII
graphs from every extractor, value numbering that succeeds on every pre-order tree
and keeps it, searches that keep what they selected, node ids that read back, rule metadata that agrees with
the side conditions, the cheapest kernel kept) are public proof functions.

`app/` is the driver: it owns the e-graph (the `egg` crate), runs the rewrites, calls
the extractors on snapshots, and talks to the C++ allocator, the Python cost model and
the SmoothE process.
