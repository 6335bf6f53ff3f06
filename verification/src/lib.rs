//! Reader for the IRO mod-container format: header and entry-table parsing,
//! UTF-16LE name decoding, and extraction of stored or LZMA-compressed
//! payload entries through interchangeable byte-cursor backends.
pub mod archive;
pub mod backend;
pub mod entry;
pub mod errors;
pub mod extract;
pub mod format;
pub mod le;
pub mod names;
pub mod parse;

pub use archive::lemma_backend_equivalence;
pub use archive::open;
pub use archive::open_buffered;
pub use archive::try_extract;
pub use archive::IRO;
pub use backend::Backend;
pub use backend::BufferedBackend;
pub use backend::MappedBackend;
pub use entry::Compression;
pub use entry::Entry;
pub use entry::EntryModel;
pub use entry::Version;
pub use errors::ExtractError;
pub use errors::FormatError;
pub use errors::IroError;
pub use names::decode_archive_name;
pub use names::decode_utf16le;
