# ai_shepherd

A meeting assistant's core, verified with Verus: it cuts captured audio into
segments, has them transcribed and translated in batches, and answers
questions from a local index of project files.

- `src/` is the verified library. `chunker`, `file_filter`, `path`,
  `hashing`, `store`, `service` and `sync` build and keep the project index;
  `projects` keeps the list of projects; `capture`, `queue` and `segments`
  cut audio and drive segment translation; `speech`, `translate` and `live`
  hold the recognizer and model settings, the prompts, and the reading of
  the models' answers; `json`, `text` and `config` are shared helpers.
- `tests/` runs the library on concrete values.
- `app/` is a command-line front end around the library: file and network
  I/O, processes, threads, and the floating-point parts (embeddings, audio
  levels).

Left out of this build:

- Speaker diarization: it runs an ONNX model with floating-point thresholds,
  and no ONNX runtime is available.
- A LanceDB-backed store and the Arrow record batches it reads: the index is
  kept in memory (`store::MemoryStore`), behind the same `RagManifestStore`
  interface.
- A neural embedding model: `app/` uses a hashing embedder. Embedders return
  unit-length vectors themselves, since the library holds no floating point.
- Capture from the system's loopback device: `app/` reads WAV recordings
  through the same segment cutting.
