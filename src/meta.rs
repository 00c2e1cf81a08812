use vstd::prelude::*;

use crate::codec::{
    lemma_octal_round_trip, octal_digits_of, octal_field, octal_limit, parse_isize, parse_octal,
    signed_octal, text_len, text_of, unsigned_octal,
};
use crate::layout::{field, field_bounds, property_range, HeaderProperty, BLOCK_SIZE, HEADER_SIZE};

verus! {

/// Checksum and format verdict on a header block.
#[derive(Debug, Clone, Copy, PartialEq, Eq, Structural)]
pub enum HeaderCheck {
    Valid,
    /// The header is not usable. `not_ustar` is set when the checksum agrees
    /// but the block does not carry the ustar magic (a pre-POSIX header).
    Invalid { not_ustar: bool },
    /// The header record holds only zero bytes: an end-of-archive block.
    Zeroes,
}

/// Kind of entry that a header describes (its type flag).
#[derive(Debug, Clone, Copy, PartialEq, Eq, Structural)]
pub enum HeaderType {
    /// Regular file
    Reg,
    /// Hard link
    Link,
    /// Symbolic link
    Sym,
    /// Character special
    Chr,
    /// Block special
    Blk,
    /// Directory
    Dir,
    /// FIFO special
    Fifo,
    /// Contiguous file
    Cont,
    /// Extended header referring to the next file in the archive
    Xhd,
    /// Global extended header
    Xlg,
    Unknown,
}

/// Bits of the mode field.
#[non_exhaustive]
pub struct Mode;

impl Mode {
    /// Set UID on execution
    pub const TSUID: u16 = 0o4000;
    /// Set GID on execution
    pub const TSGID: u16 = 0o2000;
    /// Reserved
    pub const TSVTX: u16 = 0o1000;
    /// Read by owner
    pub const TUREAD: u16 = 0o400;
    /// Write by owner
    pub const TUWRITE: u16 = 0o200;
    /// Execute or search by owner
    pub const TUEXEC: u16 = 0o100;
    /// Read by group
    pub const TGREAD: u16 = 0o40;
    /// Write by group
    pub const TGWRITE: u16 = 0o20;
    /// Execute or search by group
    pub const TGEXEC: u16 = 0o10;
    /// Read by other
    pub const TOREAD: u16 = 0o4;
    /// Write by other
    pub const TOWRITE: u16 = 0o2;
    /// Execute or search by other
    pub const TOEXEC: u16 = 0o1;
}

/// The type that the type flag byte `f` stands for. A zero byte marks a
/// regular file in headers written before POSIX.
pub open spec fn type_of_flag(f: u8) -> HeaderType {
    if f == 0x30 || f == 0 {
        HeaderType::Reg
    } else if f == 0x31 {
        HeaderType::Link
    } else if f == 0x32 {
        HeaderType::Sym
    } else if f == 0x33 {
        HeaderType::Chr
    } else if f == 0x34 {
        HeaderType::Blk
    } else if f == 0x35 {
        HeaderType::Dir
    } else if f == 0x36 {
        HeaderType::Fifo
    } else if f == 0x37 {
        HeaderType::Cont
    } else if f == 0x78 {
        HeaderType::Xhd
    } else if f == 0x67 {
        HeaderType::Xlg
    } else {
        HeaderType::Unknown
    }
}

/// Byte `i` of block `b` as the checksum counts it: the checksum field
/// itself counts as ASCII spaces.
pub open spec fn checksum_byte(b: Seq<u8>, i: int) -> u8 {
    if 148 <= i < 156 {
        0x20
    } else {
        b[i]
    }
}

/// A byte read as a two's complement `i8`.
pub open spec fn signed_byte(x: u8) -> int {
    if x < 128 {
        x as int
    } else {
        x - 256
    }
}

/// Sum of the first `n` bytes of `b` as unsigned bytes, checksum field
/// counted as spaces.
pub open spec fn unsigned_sum(b: Seq<u8>, n: int) -> int
    decreases n,
{
    if n <= 0 {
        0
    } else {
        unsigned_sum(b, n - 1) + checksum_byte(b, n - 1)
    }
}

/// Sum of the first `n` bytes of `b` as signed bytes, checksum field
/// counted as spaces.
pub open spec fn signed_sum(b: Seq<u8>, n: int) -> int
    decreases n,
{
    if n <= 0 {
        0
    } else {
        signed_sum(b, n - 1) + signed_byte(checksum_byte(b, n - 1))
    }
}

/// The first `n` bytes of `b` are all zero.
pub open spec fn zero_prefix(b: Seq<u8>, n: int) -> bool {
    forall|i: int| 0 <= i < n ==> b[i] == 0
}

/// The magic field starts with `ustar`.
pub open spec fn magic_ok(b: Seq<u8>) -> bool {
    &&& b[257] == 0x75
    &&& b[258] == 0x73
    &&& b[259] == 0x74
    &&& b[260] == 0x61
    &&& b[261] == 0x72
}

/// The stored checksum is a non-negative octal number equal to the sum of
/// the header record under the unsigned or the signed reading of its bytes.
pub open spec fn checksum_matches(b: Seq<u8>) -> bool {
    match signed_octal(text_of(field(b, HeaderProperty::Chksum))) {
        Some(c) => c >= 0 && (c == unsigned_sum(b, 500) || c == signed_sum(b, 500)),
        None => false,
    }
}

/// The verdict on header block `b`.
pub open spec fn header_check(b: Seq<u8>) -> HeaderCheck {
    if zero_prefix(b, 500) {
        HeaderCheck::Zeroes
    } else if checksum_matches(b) {
        if magic_ok(b) {
            HeaderCheck::Valid
        } else {
            HeaderCheck::Invalid { not_ustar: true }
        }
    } else {
        HeaderCheck::Invalid { not_ustar: false }
    }
}

/// The unsigned octal number in field `p` of block `b` (up to its first zero
/// byte), or 0 when there is none or it exceeds `max`.
pub open spec fn field_number(b: Seq<u8>, p: HeaderProperty, max: nat) -> nat {
    match unsigned_octal(text_of(field(b, p))) {
        Some(v) => if v <= max {
            v
        } else {
            0
        },
        None => 0,
    }
}

/// What `String::from_utf8_lossy` makes of the bytes `b`.
pub uninterp spec fn utf8_lossy(b: Seq<u8>) -> Seq<char>;

/// Relies on `String::from_utf8_lossy`, for the text of a field: the text
/// depends on the bytes alone.
#[verifier::external_body]
fn lossy_string(b: &[u8]) -> (r: String)
    ensures
        r@ == utf8_lossy(b@),
{
    String::from_utf8_lossy(b).into_owned()
}

/// POSIX header: one raw header block of an archive, from POSIX 1003.1-1990,
/// with its position and its verdict.
pub struct PosixHeader {
    offset: usize,
    check: HeaderCheck,
    buffer: [u8; 512],
}

impl View for PosixHeader {
    type V = Seq<u8>;

    /// The bytes of the block.
    closed spec fn view(&self) -> Seq<u8> {
        self.buffer@
    }
}

impl PosixHeader {
    /// Position of the block in its source.
    pub closed spec fn position(&self) -> nat {
        self.offset as nat
    }

    #[verifier::type_invariant]
    spec fn inv(&self) -> bool {
        self.check == header_check(self.buffer@)
    }

    /// Wraps the block `bytes` found at `offset`, and validates it.
    pub fn from(offset: usize, bytes: [u8; BLOCK_SIZE]) -> (r: PosixHeader)
        ensures
            r@ == bytes@,
            r@.len() == 512,
            r.position() == offset,
    {
        let check = block_check(&bytes);
        PosixHeader { offset, check, buffer: bytes }
    }

    /// Field `p` of the block, as it is.
    pub fn extract(&self, p: HeaderProperty) -> (r: &[u8])
        ensures
            r@ == field(self@, p),
    {
        let (start, end) = property_range(p);
        vstd::slice::slice_subrange(self.buffer.as_slice(), start, end)
    }

    /// Field `p` of the block as text: its bytes up to the first zero byte,
    /// decoded as UTF-8 with invalid sequences replaced.
    pub fn extract_string(&self, p: HeaderProperty) -> (r: String)
        ensures
            r@ == utf8_lossy(text_of(field(self@, p))),
    {
        let v = self.extract(p);
        let k = text_len(v);
        lossy_string(vstd::slice::slice_subrange(v, 0, k))
    }

    /// Number in field `p` below `max`, as `field_number` reads it.
    fn extract_number(&self, p: HeaderProperty, max: u128) -> (r: u128)
        ensures
            r == field_number(self@, p, max as nat),
    {
        let v = self.extract(p);
        let k = text_len(v);
        match parse_octal(vstd::slice::slice_subrange(v, 0, k)) {
            Some(n) => if n <= max {
                n
            } else {
                0
            },
            None => 0,
        }
    }

    /// Payload size that the header declares; 0 when the field does not hold
    /// a number that fits a `usize`.
    pub fn size(&self) -> (r: usize)
        ensures
            r == field_number(self@, HeaderProperty::Size, usize::MAX as nat),
    {
        self.extract_number(HeaderProperty::Size, usize::MAX as u128) as usize
    }

    /// Kind of entry that the header describes.
    pub fn typeflag(&self) -> (r: HeaderType)
        ensures
            r == type_of_flag(self@[156]),
    {
        let flag = self.extract(HeaderProperty::Typeflag)[0];
        match flag {
            0x30 | 0 => HeaderType::Reg,
            0x31 => HeaderType::Link,
            0x32 => HeaderType::Sym,
            0x33 => HeaderType::Chr,
            0x34 => HeaderType::Blk,
            0x35 => HeaderType::Dir,
            0x36 => HeaderType::Fifo,
            0x37 => HeaderType::Cont,
            0x78 => HeaderType::Xhd,
            0x67 => HeaderType::Xlg,
            _ => HeaderType::Unknown,
        }
    }

    /// Validates the checksum and the format of the header.
    ///
    /// Some historical tar programs added up the header bytes as signed
    /// chars, which differs from the POSIX unsigned sum once a name holds a
    /// byte with the high bit set; a checksum that agrees with either sum is
    /// accepted.
    pub fn validate(&self) -> (r: HeaderCheck)
        ensures
            r == header_check(self@),
    {
        block_check(&self.buffer)
    }
}

/// The verdict on the block `b`.
fn block_check(b: &[u8; BLOCK_SIZE]) -> (r: HeaderCheck)
    ensures
        r == header_check(b@),
{
    let mut unsigned: usize = 0;
    let mut signed: isize = 0;
    let mut zeroes = true;
    let mut i: usize = 0;
    while i < HEADER_SIZE
        invariant
            i <= HEADER_SIZE,
            b@.len() == 512,
            unsigned as int == unsigned_sum(b@, i as int),
            signed as int == signed_sum(b@, i as int),
            0 <= unsigned <= 255 * i,
            -128 * i <= signed <= 127 * i,
            zeroes == zero_prefix(b@, i as int),
        decreases HEADER_SIZE - i,
    {
        let mut value = b[i];
        if value != 0 {
            zeroes = false;
        }
        if 148 <= i && i < 156 {
            value = 0x20;
        }
        unsigned = unsigned + value as usize;
        if value < 128 {
            signed = signed + value as isize;
        } else {
            signed = signed + value as isize - 256;
        }
        i = i + 1;
    }
    if zeroes {
        return HeaderCheck::Zeroes;
    }
    let (start, end) = property_range(HeaderProperty::Chksum);
    let field_bytes = vstd::slice::slice_subrange(b.as_slice(), start, end);
    let k = text_len(field_bytes);
    let matches = match parse_isize(vstd::slice::slice_subrange(field_bytes, 0, k)) {
        Some(c) => c >= 0 && (unsigned == c as usize || signed == c),
        None => false,
    };
    if !matches {
        HeaderCheck::Invalid { not_ustar: false }
    } else if b[257] == 0x75 && b[258] == 0x73 && b[259] == 0x74 && b[260] == 0x61 && b[261]
        == 0x72 {
        HeaderCheck::Valid
    } else {
        HeaderCheck::Invalid { not_ustar: true }
    }
}

/// Decoded form of one header, for users of the archive.
#[derive(Debug)]
pub struct Header {
    pub check: HeaderCheck,
    /// Position of the header block in its source
    pub offset: usize,
    /// Index of the previous revision of the same entry, in the order of the
    /// headers in the source
    pub prev: Option<usize>,
    pub typeflag: HeaderType,
    pub name: String,
    pub linkname: String,
    pub uname: String,
    pub gname: String,
    pub mode: u64,
    pub uid: u64,
    pub gid: u64,
    /// Modification time, in seconds since the epoch
    pub mtime: u128,
    /// Payload size in bytes
    pub size: usize,
}

/// `h` is the decoding of block `b` found at `offset`: every numeric field
/// that does not parse, or does not fit its type, reads as 0.
pub open spec fn decodes(h: Header, b: Seq<u8>, offset: nat) -> bool {
    &&& h.check == header_check(b)
    &&& h.offset == offset
    &&& h.prev is None
    &&& h.typeflag == type_of_flag(b[156])
    &&& h.name@ == utf8_lossy(text_of(field(b, HeaderProperty::Name)))
    &&& h.linkname@ == utf8_lossy(text_of(field(b, HeaderProperty::Linkname)))
    &&& h.uname@ == utf8_lossy(text_of(field(b, HeaderProperty::Uname)))
    &&& h.gname@ == utf8_lossy(text_of(field(b, HeaderProperty::Gname)))
    &&& h.mode == field_number(b, HeaderProperty::Mode, u64::MAX as nat)
    &&& h.uid == field_number(b, HeaderProperty::Uid, u64::MAX as nat)
    &&& h.gid == field_number(b, HeaderProperty::Gid, u64::MAX as nat)
    &&& h.mtime == field_number(b, HeaderProperty::Mtime, u128::MAX as nat)
    &&& h.size == field_number(b, HeaderProperty::Size, usize::MAX as nat)
}

impl Header {
    /// Decodes every field of the raw header, whatever its verdict, so that
    /// a damaged header can still be inspected.
    pub fn from(pheader: PosixHeader) -> (r: Header)
        ensures
            decodes(r, pheader@, pheader.position()),
    {
        proof {
            use_type_invariant(&pheader);
        }
        Header {
            check: pheader.check,
            offset: pheader.offset,
            prev: None,
            typeflag: pheader.typeflag(),
            name: pheader.extract_string(HeaderProperty::Name),
            linkname: pheader.extract_string(HeaderProperty::Linkname),
            uname: pheader.extract_string(HeaderProperty::Uname),
            gname: pheader.extract_string(HeaderProperty::Gname),
            mode: pheader.extract_number(HeaderProperty::Mode, u64::MAX as u128) as u64,
            uid: pheader.extract_number(HeaderProperty::Uid, u64::MAX as u128) as u64,
            gid: pheader.extract_number(HeaderProperty::Gid, u64::MAX as u128) as u64,
            mtime: pheader.extract_number(HeaderProperty::Mtime, u128::MAX),
            size: pheader.size(),
        }
    }
}

/// A block whose header record is all zero bytes is an end-of-archive
/// block, whatever else it holds.
pub proof fn lemma_zero_block(b: Seq<u8>)
    requires
        b.len() == 512,
        forall|i: int| 0 <= i < 500 ==> b[i] == 0,
    ensures
        header_check(b) == HeaderCheck::Zeroes,
{
}

/// Block `b` with its checksum field replaced by the 8 bytes `f`.
pub open spec fn with_checksum(b: Seq<u8>, f: Seq<u8>) -> Seq<u8> {
    b.subrange(0, 148) + f + b.subrange(156, b.len() as int)
}

/// The checksum field as tar writes it: six octal digits, a zero byte and a
/// space.
pub open spec fn checksum_field(sum: nat) -> Seq<u8> {
    octal_digits_of(sum, 6) + seq![0u8, 0x20u8]
}

/// Two blocks that agree outside the checksum field have the same sums.
proof fn lemma_sums_agree(b1: Seq<u8>, b2: Seq<u8>, n: int)
    requires
        0 <= n <= b1.len(),
        n <= b2.len(),
        forall|i: int| 0 <= i < n && !(148 <= i < 156) ==> b1[i] == b2[i],
    ensures
        unsigned_sum(b1, n) == unsigned_sum(b2, n),
        signed_sum(b1, n) == signed_sum(b2, n),
    decreases n,
{
    if n > 0 {
        lemma_sums_agree(b1, b2, n - 1);
    }
}

/// The unsigned sum of `n` bytes is at most `255 * n`.
proof fn lemma_unsigned_sum_bound(b: Seq<u8>, n: int)
    requires
        0 <= n <= b.len(),
    ensures
        0 <= unsigned_sum(b, n) <= 255 * n,
    decreases n,
{
    if n > 0 {
        lemma_unsigned_sum_bound(b, n - 1);
    }
}

/// The checksum of a header ignores what its checksum field holds: for a
/// valid header, the stored checksum equals the unsigned or the signed sum
/// that is recomputed with that field blanked (or replaced by any other 8
/// bytes), and the block carries the ustar magic.
pub proof fn lemma_valid_checksum_recomputes(b: Seq<u8>, f: Seq<u8>)
    requires
        b.len() == 512,
        f.len() == 8,
        header_check(b) == HeaderCheck::Valid,
    ensures
        signed_octal(text_of(field(b, HeaderProperty::Chksum))) matches Some(c) && (c
            == unsigned_sum(with_checksum(b, f), 500) || c == signed_sum(
            with_checksum(b, f),
            500,
        )),
        magic_ok(with_checksum(b, f)),
{
    let b2 = with_checksum(b, f);
    assert forall|i: int| 0 <= i < 500 && !(148 <= i < 156) implies b[i] == b2[i] by {
        if i >= 156 {
            assert(b2[i] == b.subrange(156, 512)[i - 156]);
        }
    }
    lemma_sums_agree(b, b2, 500);
    assert(b2[257] == b[257] && b2[258] == b[258] && b2[259] == b[259] && b2[260] == b[260]
        && b2[261] == b[261]) by {
        assert(b2[257] == b.subrange(156, 512)[257 - 156]);
        assert(b2[258] == b.subrange(156, 512)[258 - 156]);
        assert(b2[259] == b.subrange(156, 512)[259 - 156]);
        assert(b2[260] == b.subrange(156, 512)[260 - 156]);
        assert(b2[261] == b.subrange(156, 512)[261 - 156]);
    }
}

/// Sealing a block: writing the octal unsigned sum of any block that carries
/// the ustar magic into its checksum field, as tar does, gives a valid
/// header.
pub proof fn lemma_sealed_block_is_valid(b: Seq<u8>)
    requires
        b.len() == 512,
        magic_ok(b),
    ensures
        header_check(with_checksum(b, checksum_field(unsigned_sum(b, 500) as nat)))
            == HeaderCheck::Valid,
{
    let sum = unsigned_sum(b, 500);
    lemma_unsigned_sum_bound(b, 500);
    let f = checksum_field(sum as nat);
    let b2 = with_checksum(b, f);
    let d = octal_digits_of(sum as nat, 6);
    assert(octal_limit(6) == 262144) by {
        assert(octal_limit(0) == 1);
        assert(octal_limit(1) == 8);
        assert(octal_limit(2) == 64);
        assert(octal_limit(3) == 512);
        assert(octal_limit(4) == 4096);
        assert(octal_limit(5) == 32768);
    }
    lemma_octal_round_trip(sum as nat, 7);
    crate::codec::lemma_octal_digits_value(sum as nat, 6);
    assert(f.len() == 8);
    assert(octal_field(sum as nat, 7) == d.push(0));
    assert(field(b2, HeaderProperty::Chksum) =~= f);
    assert(text_of(f) == text_of(d.push(0))) by {
        assert(text_of(d.push(0)) == d);
        assert forall|i: int| 0 <= i < 6 implies f[i] != 0 by {
            assert(f[i] == d[i]);
        }
        crate::codec::lemma_text_of_prefix(f, 6);
        crate::codec::lemma_text_of_prefix(d.push(0), 6);
        assert(f.take(6) =~= d.push(0).take(6));
    }
    assert forall|i: int| 0 <= i < 500 && !(148 <= i < 156) implies b[i] == b2[i] by {
        if i >= 156 {
            assert(b2[i] == b.subrange(156, 512)[i - 156]);
        }
    }
    lemma_sums_agree(b, b2, 500);
    assert(b2[257] == b.subrange(156, 512)[257 - 156]);
    assert(b2[258] == b.subrange(156, 512)[258 - 156]);
    assert(b2[259] == b.subrange(156, 512)[259 - 156]);
    assert(b2[260] == b.subrange(156, 512)[260 - 156]);
    assert(b2[261] == b.subrange(156, 512)[261 - 156]);
    assert(!zero_prefix(b2, 500));
    crate::codec::lemma_signed_octal_digits(d);
}

/// Round trip of a numeric field: a number written in octal into field `p`
/// as tar writes it, and small enough for that field and for `max`, is what
/// the header reads back from it.
pub proof fn lemma_numeric_field_round_trip(b: Seq<u8>, p: HeaderProperty, v: nat, max: nat)
    requires
        b.len() == 512,
        field(b, p) == octal_field(v, (field_bounds(p).1 - field_bounds(p).0) as nat),
        field_bounds(p).1 - field_bounds(p).0 >= 2,
        v < octal_limit((field_bounds(p).1 - field_bounds(p).0 - 1) as nat),
        v <= max,
    ensures
        field_number(b, p, max) == v,
{
    lemma_octal_round_trip(v, (field_bounds(p).1 - field_bounds(p).0) as nat);
}

} // verus!
