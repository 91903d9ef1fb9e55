//! Reading and repacking Sega FILM (CPK) containers.
//!
//! A container is a self-describing header followed by interleaved audio
//! and video chunks. This crate decodes the header into structured values
//! and replaces the audio chunks of a container with a new track, laid out
//! the way the container stores stereo sound.
//!
//! - [`bytes`]: big-endian integers.
//! - [`text`]: text fields and magic words.
//! - [`table`], [`format`], [`header`]: the three blocks of a header.
//! - [`layout`]: the fields of a header written back give its bytes.
//! - [`audio`]: parting a stereo track into two planes.
//! - [`remux`]: putting a replacement track into a container.
//! - [`output`]: where each chunk lies in the output of a remux.
//! - [`own_audio`]: putting back the audio of a container changes nothing.
//!
//! Every function is verified with Verus against the contract it carries.
//! The one exception is named in [`text`].

pub mod audio;
pub mod bytes;
pub mod error;
pub mod format;
pub mod header;
pub mod layout;
pub mod output;
pub mod own_audio;
pub mod remux;
pub mod table;
pub mod text;

pub use error::{ParseError, RemuxError};
pub use format::FDSC;
pub use header::{looks_like_container, probe_header_length, FILMHeader};
pub use remux::{copy_sample, remux, AudioData};
pub use table::{Sample, STAB};
