use tar_headers::{
    property_range, Header, HeaderCheck, HeaderProperty, HeaderType, Mode, PosixHeader, BLOCK_SIZE,
};

fn put(block: &mut [u8; BLOCK_SIZE], p: HeaderProperty, bytes: &[u8]) {
    let (start, end) = property_range(p);
    assert!(bytes.len() <= end - start);
    block[start..start + bytes.len()].copy_from_slice(bytes);
}

fn unsigned_sum(block: &[u8; BLOCK_SIZE]) -> u32 {
    let mut sum = 0u32;
    for (i, b) in block[..500].iter().enumerate() {
        sum += if (148..156).contains(&i) { 32 } else { *b as u32 };
    }
    sum
}

fn signed_sum(block: &[u8; BLOCK_SIZE]) -> i32 {
    let mut sum = 0i32;
    for (i, b) in block[..500].iter().enumerate() {
        sum += if (148..156).contains(&i) { 32 } else { *b as i8 as i32 };
    }
    sum
}

fn seal(block: &mut [u8; BLOCK_SIZE], sum: u32) {
    put(block, HeaderProperty::Chksum, format!("{:06o}\0 ", sum).as_bytes());
}

fn header_block(name: &str, size: u64, flag: u8) -> [u8; BLOCK_SIZE] {
    let mut b = [0u8; BLOCK_SIZE];
    put(&mut b, HeaderProperty::Name, name.as_bytes());
    put(&mut b, HeaderProperty::Mode, b"0000644\0");
    put(&mut b, HeaderProperty::Uid, b"0001750\0");
    put(&mut b, HeaderProperty::Gid, b"0000144\0");
    put(&mut b, HeaderProperty::Size, format!("{:011o}\0", size).as_bytes());
    put(&mut b, HeaderProperty::Mtime, b"14473122337\0");
    put(&mut b, HeaderProperty::Typeflag, &[flag]);
    put(&mut b, HeaderProperty::Magic, b"ustar\0");
    put(&mut b, HeaderProperty::Version, b"00");
    put(&mut b, HeaderProperty::Uname, b"alice");
    put(&mut b, HeaderProperty::Gname, b"staff");
    let sum = unsigned_sum(&b);
    seal(&mut b, sum);
    b
}

#[test]
fn common_zero_header_validation() {
    let zeroes = [0; BLOCK_SIZE];
    let header = PosixHeader::from(0, zeroes);

    assert_eq!(header.validate(), HeaderCheck::Zeroes);
}

#[test]
fn mod_zero_header_validation() {
    let zeroes = [0; BLOCK_SIZE];
    let header = PosixHeader::from(0, zeroes);

    assert_eq!(header.validate(), HeaderCheck::Zeroes);
}

#[test]
fn read_zero_header_validation() {
    let zeroes = [0; BLOCK_SIZE];
    let header = PosixHeader::from(0, zeroes);

    assert_eq!(header.validate(), HeaderCheck::Zeroes);
}

#[test]
fn zero_record_with_padding_is_zeroes() {
    let mut b = [0u8; BLOCK_SIZE];
    b[505] = 7;
    assert_eq!(PosixHeader::from(0, b).validate(), HeaderCheck::Zeroes);
}

#[test]
fn sealed_header_is_valid() {
    let b = header_block("hello.txt", 5, b'0');
    assert_eq!(PosixHeader::from(0, b).validate(), HeaderCheck::Valid);
}

#[test]
fn reblanked_checksum_reproduces_valid() {
    let b = header_block("again.txt", 1234, b'0');
    let mut blank = b;
    put(&mut blank, HeaderProperty::Chksum, b"        ");
    assert_eq!(unsigned_sum(&blank), unsigned_sum(&b));
    let mut resealed = blank;
    seal(&mut resealed, unsigned_sum(&blank));
    assert_eq!(resealed, b);
    assert_eq!(PosixHeader::from(0, resealed).validate(), HeaderCheck::Valid);
}

#[test]
fn wrong_checksum_is_invalid() {
    let mut b = header_block("hello.txt", 5, b'0');
    b[3] ^= 1;
    assert_eq!(
        PosixHeader::from(0, b).validate(),
        HeaderCheck::Invalid { not_ustar: false }
    );
}

#[test]
fn signed_checksum_is_accepted() {
    let mut b = header_block("x", 0, b'0');
    put(&mut b, HeaderProperty::Name, &[0xe9, 0xe8, 0x41]);
    let signed = signed_sum(&b);
    assert!(signed >= 0 && signed as u32 != unsigned_sum(&b));
    seal(&mut b, signed as u32);
    assert_eq!(PosixHeader::from(0, b).validate(), HeaderCheck::Valid);
}

#[test]
fn negative_checksum_is_invalid() {
    let mut b = header_block("x", 0, b'0');
    put(&mut b, HeaderProperty::Chksum, b"-0001\0  ");
    assert_eq!(
        PosixHeader::from(0, b).validate(),
        HeaderCheck::Invalid { not_ustar: false }
    );
}

#[test]
fn unparsable_checksum_is_invalid() {
    let mut b = header_block("x", 0, b'0');
    put(&mut b, HeaderProperty::Chksum, b"12x4\0   ");
    assert_eq!(
        PosixHeader::from(0, b).validate(),
        HeaderCheck::Invalid { not_ustar: false }
    );
    put(&mut b, HeaderProperty::Chksum, b"\0       ");
    assert_eq!(
        PosixHeader::from(0, b).validate(),
        HeaderCheck::Invalid { not_ustar: false }
    );
}

#[test]
fn checksummed_header_without_magic_is_not_ustar() {
    let mut b = header_block("old.txt", 3, b'0');
    put(&mut b, HeaderProperty::Magic, b"\0\0\0\0\0\0");
    put(&mut b, HeaderProperty::Version, b"\0\0");
    let sum = unsigned_sum(&b);
    seal(&mut b, sum);
    assert_eq!(
        PosixHeader::from(0, b).validate(),
        HeaderCheck::Invalid { not_ustar: true }
    );
}

#[test]
fn gnu_magic_is_accepted() {
    let mut b = header_block("gnu.txt", 3, b'0');
    put(&mut b, HeaderProperty::Magic, b"ustar ");
    put(&mut b, HeaderProperty::Version, b" \0");
    let sum = unsigned_sum(&b);
    seal(&mut b, sum);
    assert_eq!(PosixHeader::from(0, b).validate(), HeaderCheck::Valid);
}

#[test]
fn extract_gives_raw_field() {
    let b = header_block("abc", 10, b'5');
    let h = PosixHeader::from(0, b);
    assert_eq!(h.extract(HeaderProperty::Magic), b"ustar\0");
    assert_eq!(h.extract(HeaderProperty::Size), b"00000000012\0");
    assert_eq!(h.extract(HeaderProperty::Name).len(), 100);
}

#[test]
fn extract_string_stops_at_zero_byte() {
    let b = header_block("dir/file.txt", 10, b'0');
    let h = PosixHeader::from(0, b);
    assert_eq!(h.extract_string(HeaderProperty::Name), "dir/file.txt");
    assert_eq!(h.extract_string(HeaderProperty::Uname), "alice");
    assert_eq!(h.extract_string(HeaderProperty::Linkname), "");
}

#[test]
fn extract_string_replaces_invalid_utf8() {
    let mut b = header_block("x", 0, b'0');
    put(&mut b, HeaderProperty::Name, &[0x61, 0xff, 0x62]);
    let h = PosixHeader::from(0, b);
    assert_eq!(h.extract_string(HeaderProperty::Name), "a\u{fffd}b");
}

#[test]
fn size_and_typeflag_of_raw_header() {
    let h = PosixHeader::from(0, header_block("big", 70000, b'2'));
    assert_eq!(h.size(), 70000);
    assert_eq!(h.typeflag(), HeaderType::Sym);
}

#[test]
fn unparsable_size_reads_as_zero() {
    let mut b = header_block("x", 0, b'0');
    put(&mut b, HeaderProperty::Size, b"12 34\0\0\0\0\0\0\0");
    assert_eq!(PosixHeader::from(0, b).size(), 0);
    put(&mut b, HeaderProperty::Size, b"\0\0\0\0\0\0\0\0\0\0\0\0");
    assert_eq!(PosixHeader::from(0, b).size(), 0);
    put(&mut b, HeaderProperty::Size, b"00000000089\0");
    assert_eq!(PosixHeader::from(0, b).size(), 0);
}

#[test]
fn type_flags() {
    let table: [(u8, HeaderType); 12] = [
        (b'0', HeaderType::Reg),
        (0, HeaderType::Reg),
        (b'1', HeaderType::Link),
        (b'2', HeaderType::Sym),
        (b'3', HeaderType::Chr),
        (b'4', HeaderType::Blk),
        (b'5', HeaderType::Dir),
        (b'6', HeaderType::Fifo),
        (b'7', HeaderType::Cont),
        (b'x', HeaderType::Xhd),
        (b'g', HeaderType::Xlg),
        (b'L', HeaderType::Unknown),
    ];
    for (flag, t) in table {
        assert_eq!(PosixHeader::from(0, header_block("f", 0, flag)).typeflag(), t);
    }
}

#[test]
fn header_decodes_every_field() {
    let h = Header::from(PosixHeader::from(1536, header_block("notes.md", 700, b'0')));
    assert_eq!(h.check, HeaderCheck::Valid);
    assert_eq!(h.offset, 1536);
    assert_eq!(h.prev, None);
    assert_eq!(h.typeflag, HeaderType::Reg);
    assert_eq!(h.name, "notes.md");
    assert_eq!(h.linkname, "");
    assert_eq!(h.uname, "alice");
    assert_eq!(h.gname, "staff");
    assert_eq!(h.mode, 0o644);
    assert_eq!(h.uid, 1000);
    assert_eq!(h.gid, 100);
    assert_eq!(h.mtime, 0o14473122337);
    assert_eq!(h.size, 700);
}

#[test]
fn invalid_header_is_still_decoded() {
    let mut b = header_block("broken", 42, b'1');
    put(&mut b, HeaderProperty::Linkname, b"target");
    let h = Header::from(PosixHeader::from(0, b));
    assert_eq!(h.check, HeaderCheck::Invalid { not_ustar: false });
    assert_eq!(h.name, "broken");
    assert_eq!(h.linkname, "target");
    assert_eq!(h.size, 42);
    assert_eq!(h.typeflag, HeaderType::Link);
}

#[test]
fn zero_block_decodes_to_defaults() {
    let h = Header::from(PosixHeader::from(0, [0u8; BLOCK_SIZE]));
    assert_eq!(h.check, HeaderCheck::Zeroes);
    assert_eq!(h.name, "");
    assert_eq!(h.size, 0);
    assert_eq!(h.mode, 0);
    assert_eq!(h.mtime, 0);
}

#[test]
fn field_layout() {
    assert_eq!(property_range(HeaderProperty::Name), (0, 100));
    assert_eq!(property_range(HeaderProperty::Chksum), (148, 156));
    assert_eq!(property_range(HeaderProperty::Typeflag), (156, 157));
    assert_eq!(property_range(HeaderProperty::Magic), (257, 263));
    assert_eq!(property_range(HeaderProperty::Prefix), (345, 500));
}

#[test]
fn mode_bits_are_octal() {
    assert_eq!(Mode::TSUID, 0o4000);
    assert_eq!(Mode::TUREAD | Mode::TUWRITE | Mode::TGREAD | Mode::TOREAD, 0o644);
    assert_eq!(Mode::TOEXEC, 1);
}
