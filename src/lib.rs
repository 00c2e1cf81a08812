//! Reading POSIX ustar archives header by header.
//!
//! The library decodes 512-byte header blocks into typed records, validates
//! their checksums, and walks an archive from header to header by skipping
//! the payload blocks that each header declares.
pub mod archive;
pub mod codec;
pub mod layout;
pub mod meta;
pub mod read;

pub use archive::TarMeta;
pub use codec::{offset_by_blocks, parse_isize, parse_octal, parse_usize};
pub use layout::{property_range, HeaderProperty, BLOCK_SIZE, HEADER_SIZE};
pub use meta::{Header, HeaderCheck, HeaderType, Mode, PosixHeader};
pub use read::{HeadersIterator, HeadersParser, ParserState};
