//! Core of a video downloader: the data model shared with the user interface
//! and an MPEG-TS to MP4 remuxer for H.264 video and AAC audio.
//!
//! Layout:
//! - `models`: download tasks, settings and their normalisation rules.
//! - `error`: the remuxer's error type.
//! - `codec`: the calls into the `mp4` and `h264-reader` crates.
//! - `timestamps`: PTS/DTS decoding, wrap-around unrolling and rescaling.
//! - `ts`: transport-stream packets, PSI tables and PES reassembly.
//! - `annexb`: Annex B start codes and NAL unit splitting.
//! - `audio`: ADTS headers and the AAC track.
//! - `video`: the H.264 track and its sample timing.
//! - `movie`: movie time base and file-level configuration.
//! - `remux`: the transport-stream parse that ties the pieces together.

pub mod models;
pub mod error;
pub mod codec;
pub mod timestamps;
pub mod annexb;
pub mod ts;
pub mod audio;
pub mod video;
pub mod movie;
pub mod remux;
