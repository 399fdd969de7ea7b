//! A read-optimized, immutable key-value store in the style of the constant database,
//! with 64-bit hashes and offsets.
//!
//! A database is built once, by a [`CdbWriter`] that streams records into a sink and
//! then lays out 256 hash subtables behind them, and read thereafter, by a [`Cdb`] that
//! answers lookups by probing the subtable that a key's hash selects, or by a
//! [`CdbIterator`] that walks the records in the order in which they were added.
//!
//! The modules `format` and `decode` say what the bytes of a file are and what a reader
//! finds in them; `roundtrip` proves that a reader finds in a built file what was put
//! into it.

pub mod cdb;
pub mod decode;
pub mod error;
pub mod format;
pub mod hash;
pub mod iterator;
pub mod layout;
pub mod mmap;
pub mod model;
pub mod probing;
pub mod roundtrip;
pub mod sink;
pub mod slots;
pub mod util;
pub mod writer;

pub use cdb::Cdb;
pub use error::{Error, ErrorKind, IoError};
pub use format::HEADER_SIZE;
pub use hash::{CDBHash, CdbHash, KeyHasher, CDB_HASH_START_VALUE};
pub use iterator::CdbIterator;
pub use sink::{Cursor, WriteSeek};
pub use util::{after_read, read_tuple, write_tuple, ReadStep, ReaderAt};
pub use writer::CdbWriter;
