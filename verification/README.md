# squeeze

The verified core of Squeeze, a desktop tool that compresses (and trims)
videos to fit Discord's upload limit with ffmpeg.

- `src/` is the library, verified with Verus: the job queue and its
  transitions (`jobs`), the drop/ingest and enqueue decisions (`commands`),
  folder discovery and path comparison (`discovery`), output file names
  (`output`), the path model they rest on (`paths`), sidecar lookup
  (`binaries`), the ffmpeg argument list and the compression state machine
  (`ffmpeg`), what is kept of an ffprobe report (`ffprobe`), the whole-number
  bitrate rules (`bitrate`), the errors and their texts (`error`), and
  string helpers (`text`).
- `tests/` runs the library on concrete values.
- `app/` is the unverified shell: process and file-system I/O, the async job
  store and worker, floating-point arithmetic (bitrate plans, trim ranges,
  frame rates) and the serde shapes the user interface exchanges.
