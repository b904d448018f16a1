# Cortex

A local-first personal context engine: it watches directories, splits the
files it finds into chunks, embeds them with a sentence-embedding model and
answers semantic searches over a small HTTP API, driven by the `cortex`
command line.

## Layout

- `src/` is the verified library (Verus). Its functions carry contracts
  that Verus proves, except a few small wrappers around outside crates
  (`blake3`, `uuid`, `dirs`, `tokenizers`) and `String::push`, whose
  contracts are trusted and say in their doc comments what they claim:
  - `text`, `paths`: character sequences, path text (`join`, file names,
    extensions, stems), the filters on indexed files;
  - `chunker`: paragraph chunking with overlap and the splitting of long
    paragraphs at sentence boundaries;
  - `document`, `reader`: documents, file types, content hashes, events;
  - `ingest`, `watch`: the decisions of the ingestion pipeline and of the
    file watcher;
  - `rank`, `hits`, `blob`: search ranking, hit assembly, and the on-disk
    layout of embedding vectors;
  - `config`, `numbers`, `model`, `api`, `cli`, `daemon`: configuration,
    the PID and port files, model inputs, API bodies and command-line
    arguments.
- `app/` is the program around it: command line, daemon, SQLite store,
  file watcher, HTTP server and client, ONNX inference and the
  floating-point parts (similarity, pooling).
- `tests/` runs the library on concrete values.
