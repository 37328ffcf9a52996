//! A decoder for Rocket League replay files.
//!
//! A replay is two checksummed sections. The header section carries the
//! format version and a dictionary of properties; the content section carries
//! the string tables, the class layout and a bit-packed stream of frames.
//! [`Get`] walks the byte-aligned container, [`BitGet`] walks the frame
//! stream, and every reader is specified against a mathematical description
//! of the format over the input bytes.

pub mod bit_get;
pub mod checksum;
pub mod codec;
pub mod container;
pub mod context;
pub mod convert;
pub mod error;
pub mod get;
pub mod replay;
pub mod replication;

pub use crate::bit_get::BitGet;
pub use crate::error::BitGetError;
pub use crate::error::GetError;
pub use crate::get::Get;
pub use crate::replay::Replay;
