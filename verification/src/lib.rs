//! A library for reading and writing ZIP archives.
use vstd::prelude::*;

pub mod bytes;
pub mod codec;
pub mod compression;
pub mod cp437;
pub mod crc32;
pub mod decoder;
pub mod encoder;
pub mod entries;
pub mod format;
pub mod generating;
pub mod header;
pub mod keeping;
pub mod layout;
pub mod path;
pub mod random;
pub mod read;
pub mod result;
pub mod roundtrip;
pub mod sink;
pub mod spec;
pub mod stream;
pub mod text;
pub mod tokio;
pub mod truncate;
pub mod types;
pub mod util;
pub mod write;
pub mod writer;
pub mod writer_spec;

pub use compression::CompressionMethod;
pub use read::ZipArchive;
pub use types::DateTime;
pub use write::ZipWriter;

verus! {

} // verus!
