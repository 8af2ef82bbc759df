//! Seek-Optimized ZIP (SOZip) reader.
//!
//! A SOZip file is an ordinary ZIP file in which the Deflate stream of a large entry
//! is flushed at regular places, its chunks, and a hidden index tells where in the
//! compressed data each chunk begins. With the index, any uncompressed byte can be had
//! by decompressing the one chunk that holds it.
//!
//! - [`index`]: the index format and the arithmetic of chunks
//! - [`inflate`]: decompression of one chunk
//! - [`reader`]: random access to the uncompressed bytes of an entry
//! - [`orphan`]: index files that the central directory does not list
//! - [`archive`]: discovery of the indexes of an archive
//! - [`directory`], [`open`]: archives that are held in memory
//! - [`index_laws`], [`reader_laws`], [`orphan_laws`], [`archive_laws`], [`open_laws`],
//!   [`text_laws`], [`error_laws`]: what holds of all of these
//!
//! What has to be read from an archive is decided here; reading it is left to the
//! caller, or done by [`SozipArchive::new`] and [`SozipReader::read`] for an archive
//! that is held in memory.

pub mod archive;
pub mod archive_laws;
pub mod directory;
pub mod error;
pub mod error_laws;
pub mod image;
pub mod index;
pub mod index_laws;
pub mod inflate;
pub mod open;
pub mod open_laws;
pub mod orphan;
pub mod orphan_laws;
pub mod reader;
pub mod reader_laws;
pub mod text;
pub mod text_laws;

pub use archive::SozipArchive;
pub use error::SozipError;
pub use index::SozipIndex;
pub use reader::SozipReader;
