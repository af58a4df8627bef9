# soundscout

The core of a desktop browser for sound-effect libraries, written in Verus.

`src/` is the verified library:

- `query_builder` — sanitising full-text queries and building the search and
  count statements with their bound parameters (every `?` has its parameter);
- `paths`, `scanner`, `index_plan` — folder keys, publisher and category from
  a file's place under its scan root, which files a scan keeps, and which files
  an index pass reads, skips or finds gone;
- `folder_tree` — the sidebar tree built from `(folder, count)` rows, sorted
  at every level;
- `wav`, `peaks`, `loop_geometry` — WAV header parsing and writing, linear PCM
  decoding, chunked streaming steps, waveform buckets, and the frame geometry
  of clips and loop seams;
- `metadata` — duration and codec parameters read with Symphonia's format
  probe, turned into the catalogue's fields;
- `recency` — the least-recently-used index of decoded files, kept in an
  `lru::LruCache`;
- `config`, `models`, `engine`, `document`, `embedding`, `export_names`,
  `error`, `text` — settings defaults, data models, search routing and paging,
  embedding documents and batch checks, export file names, errors, and the
  character-sequence helpers the rest builds on.

Laws that relate several operations are public proof functions named `law_*`.

`app/` is ordinary Rust around the library: SQLite storage, decoding samples
with Symphonia, the file-system walk, floating-point signal processing, and the
commands a front end calls. `tests/` exercises the library from outside.
