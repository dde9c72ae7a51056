# capcut_transcript

A verified library behind a small desktop tool that lists CapCut projects and
reads their captions as a transcript.

- `src/` is the library, checked by Verus:
  - `text` — decimal and `HH:MM:SS` rendering, white-space collapsing,
    substring search and caption-word detection;
  - `json` — the JSON tree the logic reads, and the parse of a JSON text;
  - `fields` — reading strings, numbers and time ranges out of objects;
  - `content` — caption mentions, the text of caption content, text materials;
  - `transcript` — segment collection, time units, the sorted transcript;
  - `inspect` — the log lines that describe a draft's shape;
  - `sort` — a stable sort by integer key, with its laws;
  - `project` — the projects root, project folders, and the check that a
    requested project lies directly inside the root.
- `app/` is the Tauri shell: it touches the file system and the environment,
  calls the library with what it found, prints the log and serialises results.
- `tests/` runs the library on concrete inputs.
