use vstd::prelude::*;

verus! {

/// Size of one archive block: headers and payloads are aligned to it.
pub const BLOCK_SIZE: usize = 512;

/// Number of leading bytes of a header block that carry the header record
/// (the rest of the block is padding and takes no part in the checksum).
pub const HEADER_SIZE: usize = 500;

/// The named fields of a ustar header block.
#[derive(Debug, Clone, Copy, PartialEq, Eq, Structural)]
pub enum HeaderProperty {
    Name,
    Mode,
    Uid,
    Gid,
    Size,
    Mtime,
    Chksum,
    Typeflag,
    Linkname,
    Magic,
    Version,
    Uname,
    Gname,
    Devmajor,
    Devminor,
    Prefix,
}

/// Byte range `[start, end)` of a field within the header block.
pub open spec fn field_bounds(p: HeaderProperty) -> (usize, usize) {
    match p {
        HeaderProperty::Name => (0, 100),
        HeaderProperty::Mode => (100, 108),
        HeaderProperty::Uid => (108, 116),
        HeaderProperty::Gid => (116, 124),
        HeaderProperty::Size => (124, 136),
        HeaderProperty::Mtime => (136, 148),
        HeaderProperty::Chksum => (148, 156),
        HeaderProperty::Typeflag => (156, 157),
        HeaderProperty::Linkname => (157, 257),
        HeaderProperty::Magic => (257, 263),
        HeaderProperty::Version => (263, 265),
        HeaderProperty::Uname => (265, 297),
        HeaderProperty::Gname => (297, 329),
        HeaderProperty::Devmajor => (329, 337),
        HeaderProperty::Devminor => (337, 345),
        HeaderProperty::Prefix => (345, 500),
    }
}

/// The bytes of field `p` in block `b`.
pub open spec fn field(b: Seq<u8>, p: HeaderProperty) -> Seq<u8> {
    b.subrange(field_bounds(p).0 as int, field_bounds(p).1 as int)
}

/// Returns the byte range `(start, end)` of field `p` within a header block.
pub fn property_range(p: HeaderProperty) -> (r: (usize, usize))
    ensures
        r == field_bounds(p),
        r.0 < r.1 <= HEADER_SIZE,
{
    match p {
        HeaderProperty::Name => (0, 100),
        HeaderProperty::Mode => (100, 108),
        HeaderProperty::Uid => (108, 116),
        HeaderProperty::Gid => (116, 124),
        HeaderProperty::Size => (124, 136),
        HeaderProperty::Mtime => (136, 148),
        HeaderProperty::Chksum => (148, 156),
        HeaderProperty::Typeflag => (156, 157),
        HeaderProperty::Linkname => (157, 257),
        HeaderProperty::Magic => (257, 263),
        HeaderProperty::Version => (263, 265),
        HeaderProperty::Uname => (265, 297),
        HeaderProperty::Gname => (297, 329),
        HeaderProperty::Devmajor => (329, 337),
        HeaderProperty::Devminor => (337, 345),
        HeaderProperty::Prefix => (345, 500),
    }
}

} // verus!
