# zip

A library for reading and writing ZIP archives, with contracts that Verus proves.

- `src/` is the library. `read` and `write` hold the archives that are worked on
  in memory; `header`, `spec` and `format` the records of the format; `sink`,
  `encoder`, `decoder` and `codec` the ways to pack contents and to get them back;
  `types` and `path` what an entry says.
  `tokio` holds what streams, tasks and files need: buffers, rings, codecs that go
  step by step, archives that can be read as soon as they are written, and what
  there is to decide when an archive is extracted or split.
- The laws stand in `roundtrip`, `keeping`, `generating` and `tokio/keeping`: what is
  written is what is read back. Those on what passes through a codec stand in
  `tokio/stream_impls/passing`.
- `tests/` runs the library.
- `app/` holds files, pipes and tasks around it.
