//! Capture of live FLV / HLS streams into segmented local files.
//!
//! The verified core parses FLV tags, keeps the codec sequence headers that
//! every output file needs, decides where a recording is split, and frames
//! the bytes written out. Fetching bytes and writing files is left to the
//! caller, which carries out the instructions the core hands back.
//!
//! - `flv`: the file header and the 11-byte tag header.
//! - `tag`, `amf`: the leading fields of audio, video and script payloads.
//! - `framing`: whole tags as bytes, and reading them back.
//! - `frame`: the buffer that turns arriving chunks into frames.
//! - `segment`: the split policy.
//! - `remux`: the re-muxer, its header cache and its invariant.
//! - `laws`: properties of the files it produces.
//! - `hls`: decisions of an HLS capture.
//! - `upload`: records that finished recordings are uploaded with.

pub mod amf;
pub mod flv;
pub mod frame;
pub mod framing;
pub mod hls;
pub mod laws;
pub mod remux;
pub mod segment;
pub mod tag;
pub mod upload;
