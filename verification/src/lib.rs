//! Streaming, seekable ZIP archives whose size is known before the first byte is read.

pub mod answer_laws;
pub mod archive_laws;
pub mod builder;
pub mod byte_stream;
pub mod chunk;
pub mod collect;
pub mod crc32;
pub mod crc_cache;
pub mod crc_reader;
pub mod encode;
pub mod entry_data;
pub mod entry_laws;
pub mod error;
pub mod filesystem_entry;
pub mod filesystem_laws;
pub mod io;
pub mod laws;
pub mod layout;
pub mod names;
pub mod proptest;
pub mod read_state;
pub mod reader;
pub mod reader_entry;
pub mod reading;
pub mod reading_laws;
pub mod record_laws;
pub mod responder;
pub mod structs;
pub mod text;
pub mod time;
pub mod time_laws;
pub mod tokio_file;
pub mod vec_buffer;

pub use builder::{AddEntryError, Builder, BuilderEntry};
pub use byte_stream::BytesStream;
pub use entry_data::EntryData;
pub use error::ReadError;
pub use filesystem_entry::FilesystemEntry;
pub use reader::Reader;
