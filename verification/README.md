# feather

The engine of Feather, an on-device compressor for videos, images, GIFs and
PDFs, as a Verus-verified library, with the `feather-cli` program around it.

- `src/` — the verified library. It decides everything that does not need the
  disk, a process or a float: settings and their defaults and migration, media
  classification and `ffprobe` report merging, FFmpeg / Ghostscript argument
  lists, output naming and collision handling, how a finished encoding is put in
  place, image pixel preparation and PNG encoding, progress parsing, the job
  table, the folder-watch queue, thumbnail keys, tool lookup and installer
  choices. Each public function states its result in its `ensures`; the
  `law_*` proof functions state properties across calls.
- `app/` — `feather-cli` (compress, probe, estimate, history, MCP server): file
  and process I/O, JSON, and the encoders that take float qualities.
- `tests/` — tests of the library on concrete values.
