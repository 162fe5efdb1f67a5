//! Squeeze: the job queue, path rules, ffmpeg/ffprobe argument building and
//! ingest decisions of a local video compressor, with their contracts.

pub mod text;
pub mod paths;
pub mod models;
pub mod bitrate;
pub mod error;
pub mod discovery;
pub mod jobs;
pub mod output;
pub mod binaries;
pub mod ffmpeg;
pub mod ffprobe;
pub mod commands;
