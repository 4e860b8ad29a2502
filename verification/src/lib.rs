//! Codec for the Linear region container: one file holds the 1024 chunk
//! slots of a 32 by 32 region, as a fixed header, one zstd frame and a
//! trailing signature.
//!
//! The library works on bytes held in memory; reading and writing files
//! is left to the caller. `Region::encode_linear` turns a region into the
//! bytes of a file and `decode_linear` turns such bytes back into a
//! region. What the two promise is stated over the spec functions of
//! `format` and proved in `guarantees`.

pub mod compression;
pub mod decimal;
pub mod decode;
pub mod encode;
pub mod endian;
pub mod error;
pub mod format;
pub mod guarantees;
pub mod path;
pub mod region;
pub mod render;

pub use decode::decode_linear;
pub use encode::frame_file;
pub use error::LinearError;
pub use path::{parse_region_path, region_file_name};
pub use region::{Chunk, Region};
