# downloader_core

The core of a video downloader, written in Verus: the data model shared with
the user interface (tasks, settings and their normalisation rules) and an
MPEG-TS to MP4 remuxer for H.264 video and AAC audio. Each function carries a
`requires`/`ensures` contract that Verus proves.

Layout:

- `src/`: the verified library. `models` holds the data model. `ts`,
  `timestamps`, `annexb`, `audio`, `video`, `movie` and `remux` parse the
  transport stream into tracks. `codec` holds the few calls into the `mp4`
  and `h264-reader` crates, each behind a small trusted wrapper whose
  contract is stated in its doc comment.
- `tests/`: tests that run the library on concrete inputs, including whole
  transport streams built byte by byte.
- `app/`: plain Rust around the library: reading the input file, writing the
  MP4 with the `mp4` crate, the frame-rate arithmetic (floating point), and
  serde copies of the model types.

The remuxer holds the whole stream in memory; streams longer than
`MAX_STREAM_BYTES` (2^30 transport packets) are refused before parsing.
