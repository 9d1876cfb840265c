//! The eight-byte frame at the start of every block, read on its own: block
//! type and total length, and for a section header block the byte-order magic.
use vstd::prelude::*;
use crate::cursor::ByteCursor;
use crate::endian::{decode_u32, u32_from};
use crate::error::BlockError;
use crate::text::{bool_text, dec_text, ends_with, hex_text, lemma_parts, push_bool, push_dec, push_hex, shows, starts_with};

verus! {

/// The block type of a section header block, `0x0A0D0D0A`, which reads the
/// same in both byte orders.
pub const SECTION_BLOCK_TYPE: u32 = 0x0A0D0D0A;

/// `s` starts with the four bytes of a section header block's type.
pub open spec fn is_section_tag(s: Seq<u8>) -> bool {
    &&& s.len() >= 4
    &&& s[0] == 0x0Au8
    &&& s[1] == 0x0Du8
    &&& s[2] == 0x0Du8
    &&& s[3] == 0x0Au8
}

/// `m` starts with the byte-order magic `0x1A2B3C4D` written most significant
/// byte first: the section is big-endian.
pub open spec fn is_big_endian_magic(m: Seq<u8>) -> bool {
    &&& m.len() >= 4
    &&& m[0] == 0x1Au8
    &&& m[1] == 0x2Bu8
    &&& m[2] == 0x3Cu8
    &&& m[3] == 0x4Du8
}

/// The frame of one block, as read from the file.
#[derive(Debug)]
pub struct Header {
    /// File position of the block's first byte.
    pub start: u64,
    pub blktype: u32,
    /// Total block length as written in the block.
    pub len: u32,
    /// The block is a section header block.
    pub section: bool,
    /// The block's numbers are little-endian.
    pub little_endian: bool,
    /// The byte-order magic of a section header block; zeros for other blocks.
    pub magicbytes: [u8; 4],
}

/// How many bytes `Header::new` takes from `s`: eight, and four more for the
/// magic of a section header block.
pub open spec fn header_size(s: Seq<u8>) -> nat {
    if is_section_tag(s) { 12 } else { 8 }
}

/// `Header::new` fails on `s`: it holds less than a frame.
pub open spec fn header_fails(s: Seq<u8>) -> bool {
    s.len() < header_size(s)
}

/// The byte order `Header::new` finds in `s`: big-endian only for a section
/// header block whose magic is written most significant byte first.
pub open spec fn header_little_endian(s: Seq<u8>) -> bool {
    !(is_section_tag(s) && is_big_endian_magic(s.skip(8)))
}

/// The section type reads as `0x0A0D0D0A` in either byte order, so a section
/// header block's type is known before its byte order is.
pub proof fn lemma_section_type_in_either_order(s: Seq<u8>)
    requires
        is_section_tag(s),
    ensures
        u32_from(s, true) == SECTION_BLOCK_TYPE,
        u32_from(s, false) == SECTION_BLOCK_TYPE,
{
}

/// `Header::new` fails exactly on fewer than eight bytes, or fewer than
/// twelve for a section header block.
pub proof fn lemma_header_fails(s: Seq<u8>)
    ensures
        header_fails(s) <==> (s.len() < 8 || (is_section_tag(s) && s.len() < 12)),
{
}

/// A frame, byte by byte: a section header block is one whose first four
/// bytes are `0A 0D 0D 0A`; it takes twelve bytes and is big-endian exactly
/// when bytes 8 to 11 are `1A 2B 3C 4D`; any other block takes eight bytes and
/// is little-endian. The type is bytes 0 to 3 and the length bytes 4 to 7, in
/// that byte order.
pub proof fn lemma_header_in_bytes(s: Seq<u8>)
    requires
        s.len() >= header_size(s),
    ensures
        is_section_tag(s) <==> (s[0] == 0x0Au8 && s[1] == 0x0Du8 && s[2] == 0x0Du8 && s[3] == 0x0Au8),
        header_size(s) == (if is_section_tag(s) { 12nat } else { 8nat }),
        !header_fails(s),
        header_little_endian(s) == !(is_section_tag(s) && s[8] == 0x1Au8 && s[9] == 0x2Bu8 && s[10] == 0x3Cu8 && s[11] == 0x4Du8),
        u32_from(s, !header_little_endian(s)) == (if header_little_endian(s) {
            s[3] * 0x100_0000 + s[2] * 0x1_0000 + s[1] * 0x100 + s[0]
        } else {
            s[0] * 0x100_0000 + s[1] * 0x1_0000 + s[2] * 0x100 + s[3]
        }),
        u32_from(s.skip(4), !header_little_endian(s)) == (if header_little_endian(s) {
            s[7] * 0x100_0000 + s[6] * 0x1_0000 + s[5] * 0x100 + s[4]
        } else {
            s[4] * 0x100_0000 + s[5] * 0x1_0000 + s[6] * 0x100 + s[7]
        }),
{
}

/// The listing of a frame: position, type and length in hexadecimal, the
/// section and byte-order flags, and for a section header block the magic
/// bytes; other blocks show their length in decimal and no magic.
pub open spec fn header_text(h: Header) -> Seq<char> {
    if h.section {
        "Pos = "@ + hex_text(h.start as nat) + " type = 0x"@ + hex_text(h.blktype as nat) + " , len = "@
            + hex_text(h.len as nat) + ", section = "@ + bool_text(h.section) + ", little_endian = "@
            + bool_text(h.little_endian) + " , magic = ("@ + hex_text(h.magicbytes[0] as nat) + ","@
            + hex_text(h.magicbytes[1] as nat) + ","@ + hex_text(h.magicbytes[2] as nat) + ","@
            + hex_text(h.magicbytes[3] as nat) + ")"@
    } else {
        "Pos = "@ + hex_text(h.start as nat) + " type = 0x"@ + hex_text(h.blktype as nat) + " , len = "@
            + dec_text(h.len as nat) + ", section = "@ + bool_text(h.section) + ", little_endian = "@
            + bool_text(h.little_endian) + " "@
    }
}

/// The listing of a frame starts with its position and type in hexadecimal,
/// shows its length (in hexadecimal for a section header block, in decimal
/// otherwise) followed by its own section and byte-order flags, and ends with
/// the four magic bytes of a section header block, or a space for others.
#[verifier::rlimit(50)]
pub proof fn lemma_header_listing(h: Header)
    ensures
        starts_with(header_text(h), "Pos = "@ + hex_text(h.start as nat) + " type = 0x"@ + hex_text(h.blktype as nat) + " , len = "@),
        shows(
            header_text(h),
            (if h.section { hex_text(h.len as nat) } else { dec_text(h.len as nat) }) + ", section = "@
                + bool_text(h.section) + ", little_endian = "@ + bool_text(h.little_endian),
        ),
        h.section ==> ends_with(
            header_text(h),
            " , magic = ("@ + hex_text(h.magicbytes[0] as nat) + ","@ + hex_text(h.magicbytes[1] as nat) + ","@
                + hex_text(h.magicbytes[2] as nat) + ","@ + hex_text(h.magicbytes[3] as nat) + ")"@,
        ),
        !h.section ==> ends_with(header_text(h), " "@),
{
    let pre = "Pos = "@ + hex_text(h.start as nat) + " type = 0x"@ + hex_text(h.blktype as nat) + " , len = "@;
    let x = (if h.section { hex_text(h.len as nat) } else { dec_text(h.len as nat) }) + ", section = "@
        + bool_text(h.section) + ", little_endian = "@ + bool_text(h.little_endian);
    let post = if h.section {
        " , magic = ("@ + hex_text(h.magicbytes[0] as nat) + ","@ + hex_text(h.magicbytes[1] as nat) + ","@
            + hex_text(h.magicbytes[2] as nat) + ","@ + hex_text(h.magicbytes[3] as nat) + ")"@
    } else {
        " "@
    };
    assert(header_text(h) =~= pre + x + post);
    lemma_parts(pre, x, post);
}

impl Header {
    /// The listing of this frame.
    pub fn to_string(&self) -> (s: String)
        ensures
            s@ == header_text(*self),
    {
        let mut s = String::new();
        s.append("Pos = ");
        push_hex(&mut s, self.start);
        s.append(" type = 0x");
        push_hex(&mut s, self.blktype as u64);
        s.append(" , len = ");
        if self.is_section() {
            push_hex(&mut s, self.len as u64);
        } else {
            push_dec(&mut s, self.len as u64);
        }
        s.append(", section = ");
        push_bool(&mut s, self.section);
        s.append(", little_endian = ");
        push_bool(&mut s, self.little_endian);
        if self.is_section() {
            s.append(" , magic = (");
            push_hex(&mut s, self.magicbytes[0] as u64);
            s.append(",");
            push_hex(&mut s, self.magicbytes[1] as u64);
            s.append(",");
            push_hex(&mut s, self.magicbytes[2] as u64);
            s.append(",");
            push_hex(&mut s, self.magicbytes[3] as u64);
            s.append(")");
        } else {
            s.append(" ");
        }
        assert(s@ =~= header_text(*self));
        s
    }

    /// Reads a block frame from `f`: the type and length in the block's byte
    /// order, and for a section header block the magic that decides it.
    pub fn new(f: &mut ByteCursor) -> (r: Result<Header, BlockError>)
        ensures
            final(f).contents() == old(f).contents(),
            r is Err <==> header_fails(old(f).rest()),
            r is Err ==> {
                &&& r == Err::<Header, BlockError>(BlockError::UnexpectedEof)
                &&& final(f).position() == old(f).contents().len()
            },
            r matches Ok(h) ==> {
                let s = old(f).rest();
                &&& h.start == old(f).position()
                &&& h.section == is_section_tag(s)
                &&& h.little_endian == header_little_endian(s)
                &&& h.blktype == u32_from(s, !h.little_endian)
                &&& h.len == u32_from(s.skip(4), !h.little_endian)
                &&& h.magicbytes@ == (if h.section { s.subrange(8, 12) } else { seq![0u8, 0u8, 0u8, 0u8] })
                &&& final(f).position() == old(f).position() + header_size(s)
                &&& final(f).rest() == s.skip(header_size(s) as int)
            },
    {
        let ghost s = f.rest();
        let header: [u8; 4] = [0xA, 0xD, 0xD, 0xA];
        let magic: [u8; 4] = [0x1A, 0x2B, 0x3C, 0x4D];
        let mut sec = true;
        let mut le = true;

        let blkstart = f.stream_position();
        let h = f.read_exact(4)?;
        let l = f.read_exact(4)?;
        assert(s.skip(4).skip(4) =~= s.skip(8));

        let mut index: usize = 0;
        while index < 4
            invariant
                h@.len() == 4,
                h@ == s.take(4),
                index <= 4,
                sec == (forall|j: int| 0 <= j < index ==> h@[j] == header@[j]),
            decreases 4 - index,
        {
            if h[index] != header[index] {
                sec = false;
            }
            index = index + 1;
        }
        assert(sec == is_section_tag(s));

        let mut m: [u8; 4] = [0u8; 4];
        if sec {
            let mv = f.read_exact(4)?;
            m = [mv[0], mv[1], mv[2], mv[3]];
            assert(m@ =~= s.subrange(8, 12));
            if m[0] == magic[0] && m[1] == magic[1] && m[2] == magic[2] && m[3] == magic[3] {
                le = false;
            }
            assert(s.skip(8).skip(4) =~= s.skip(12));
        } else {
            assert(m@ =~= seq![0u8, 0u8, 0u8, 0u8]);
        }

        let hval = decode_u32(h.as_slice(), !le);
        let lval = decode_u32(l.as_slice(), !le);

        Ok(Header {
            start: blkstart,
            blktype: hval,
            len: lval,
            section: sec,
            little_endian: le,
            magicbytes: m,
        })
    }

    /// The frame belongs to a section header block.
    pub fn is_section(&self) -> (r: bool)
        ensures
            r == self.section,
    {
        self.section
    }
}

} // verus!
