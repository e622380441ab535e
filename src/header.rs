//! The fixed-format frame header: magic marker, flags byte, length field.
use vstd::prelude::*;

verus! {

/// Bytes in the magic marker `ZBXD`.
pub const MAGIC_LEN: usize = 4;

/// Header size with a 4-byte length field: magic, flags, length.
pub const SMALL_HEADER_SIZE: usize = 9;

/// Header size with an 8-byte length field.
pub const LARGE_HEADER_SIZE: usize = 13;

/// Flag bit selecting the 8-byte length field.
pub const FLAG_LARGE_PACKET: u8 = 4;

#[derive(Clone, Copy, Debug, PartialEq, Eq, Structural)]
pub struct Header {
    pub flags: u8,
    pub payload_length: u64,
}

#[derive(Clone, Copy, Debug, PartialEq, Eq, Structural)]
pub enum HeaderParse {
    /// The magic marker is wrong.
    NotThisProtocol,
    /// At least this many more bytes are needed to read the header.
    NeedMoreData(usize),
    /// The header, and how many bytes it occupies.
    Complete { header: Header, header_size: usize },
}

/// The first four bytes are `ZBXD`.
pub open spec fn is_magic(b: Seq<u8>) -> bool {
    &&& b.len() >= 4
    &&& b[0] == 0x5Au8
    &&& b[1] == 0x42u8
    &&& b[2] == 0x58u8
    &&& b[3] == 0x44u8
}

pub open spec fn is_large(flags: u8) -> bool {
    flags & FLAG_LARGE_PACKET != 0
}

/// Bytes taken by a header whose flags byte is `flags`.
pub open spec fn header_size_for(flags: u8) -> int {
    if is_large(flags) {
        LARGE_HEADER_SIZE as int
    } else {
        SMALL_HEADER_SIZE as int
    }
}

/// Little-endian value of the four bytes starting at `i`.
pub open spec fn le32_at(b: Seq<u8>, i: int) -> int {
    b[i] as int + b[i + 1] as int * 0x100 + b[i + 2] as int * 0x10000 + b[i + 3] as int
        * 0x1000000
}

/// Little-endian value of the eight bytes starting at `i`.
pub open spec fn le64_at(b: Seq<u8>, i: int) -> int {
    le32_at(b, i) + le32_at(b, i + 4) * 0x1_0000_0000
}

/// What the header at the front of `b` says, if it can be read yet.
pub open spec fn spec_parse_header(b: Seq<u8>) -> HeaderParse {
    if b.len() < MAGIC_LEN {
        HeaderParse::NeedMoreData((SMALL_HEADER_SIZE - b.len()) as usize)
    } else if !is_magic(b) {
        HeaderParse::NotThisProtocol
    } else if b.len() < MAGIC_LEN + 1 {
        HeaderParse::NeedMoreData((SMALL_HEADER_SIZE - b.len()) as usize)
    } else if b.len() < header_size_for(b[4]) {
        HeaderParse::NeedMoreData((header_size_for(b[4]) - b.len()) as usize)
    } else {
        let len = if is_large(b[4]) {
            le64_at(b, 5)
        } else {
            le32_at(b, 5)
        };
        HeaderParse::Complete {
            header: Header { flags: b[4], payload_length: len as u64 },
            header_size: header_size_for(b[4]) as usize,
        }
    }
}

/// Decodes the header at the front of `b`, reading neither the payload nor
/// anything past the header.
pub fn parse_header(b: &[u8]) -> (r: HeaderParse)
    ensures
        r == spec_parse_header(b@),
        r matches HeaderParse::Complete { header, header_size } ==> header_size <= b@.len()
            && header.payload_length == (if is_large(header.flags) {
                le64_at(b@, 5)
            } else {
                le32_at(b@, 5)
            }),
{
    let n = b.len();
    if n < MAGIC_LEN {
        return HeaderParse::NeedMoreData(SMALL_HEADER_SIZE - n);
    }
    if !(b[0] == 0x5A && b[1] == 0x42 && b[2] == 0x58 && b[3] == 0x44) {
        return HeaderParse::NotThisProtocol;
    }
    if n < MAGIC_LEN + 1 {
        return HeaderParse::NeedMoreData(SMALL_HEADER_SIZE - n);
    }
    let flags = b[4];
    let large = flags & FLAG_LARGE_PACKET != 0;
    let size = if large {
        LARGE_HEADER_SIZE
    } else {
        SMALL_HEADER_SIZE
    };
    if n < size {
        return HeaderParse::NeedMoreData(size - n);
    }
    let lo: u64 = b[5] as u64 + (b[6] as u64) * 0x100 + (b[7] as u64) * 0x10000 + (b[8] as u64)
        * 0x1000000;
    let len: u64 = if large {
        let hi: u64 = b[9] as u64 + (b[10] as u64) * 0x100 + (b[11] as u64) * 0x10000
            + (b[12] as u64) * 0x1000000;
        lo + hi * 0x1_0000_0000
    } else {
        lo
    };
    HeaderParse::Complete { header: Header { flags, payload_length: len }, header_size: size }
}

} // verus!
