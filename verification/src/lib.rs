//! A streaming ZIP archive writer: builds PKZIP-format archives from
//! in-memory buffers or file payloads handed in by the caller, with the
//! byte layout of every record pinned down by specification functions.
use vstd::prelude::*;

pub mod calendar;
pub mod codec;
pub mod crc32;
pub mod format;
pub mod simzip;

pub use crate::crc32::update_fast_16;
pub use crate::crc32::update_slow;
pub use crate::simzip::Attribute;
pub use crate::simzip::Compression;
pub use crate::simzip::FileMeta;
pub use crate::simzip::Location;
pub use crate::simzip::ZipEntry;
pub use crate::simzip::ZipError;
pub use crate::simzip::ZipInfo;

verus! {

} // verus!
