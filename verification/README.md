# ort_superserve

An asynchronous ONNX Runtime session orchestrator: requests are collected into
batches, preprocessed in parallel, stacked, run on a pool of sessions and
sliced back per caller.

- `src/` is the verified library (Verus): the batcher's state machine and the
  ordering of preprocessed inputs, stacking and slicing of tensors, the session
  plan, tensor-name resolution, error texts, and the benchmark helpers.
  Proof functions in `src/actor/` state the laws: slicing inverts stacking and
  back, each kept caller receives the row of its own request, round-robin
  dispatch and batch bounds over whole runs of events, and the exponential
  backoff of session retries. The benchmark helpers decode an image, scale its
  shorter side to 256, crop the central 224x224 square and lay its channels
  out one after another.
- `app/` runs those decisions with Tokio, kanal, worker threads and ONNX
  Runtime, and holds the configuration, the `Input`/`Output` traits and the
  benchmark programs.
- `tests/` exercises the library on concrete values.
