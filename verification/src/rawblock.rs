//! A block as it stands in the file: its frame and the bytes of its body.
use vstd::prelude::*;
use crate::cursor::ByteCursor;
use crate::endian::{decode_u32, u32_from};
use crate::error::BlockError;
use crate::text::{dec_text, ends_with, hex_field, lemma_parts, push_dec, push_hex_field, push_lossy, shows, starts_with, utf8_lossy};
use crate::header::{header_fails, header_little_endian, header_size, is_big_endian_magic, is_section_tag};

verus! {

/// One block of a capture file, its body not yet interpreted.
#[derive(Debug)]
pub struct RawBlock {
    /// File position of the block's first byte.
    pub filepos: u64,
    pub blktype: u32,
    /// Total block length as written in the block.
    pub blklen: u32,
    /// `Some(big_endian)` for a section header block read as the first block
    /// of a section; `None` for every other block.
    pub endianness: Option<bool>,
    /// The bytes after the frame, up to the declared length or the end of the
    /// file, whichever comes first. For a section header block the byte-order
    /// magic is part of the frame, not of the body.
    pub data: Vec<u8>,
}

/// The byte order a block is read in: big-endian only when `endianness` is
/// `Some(true)`.
pub open spec fn is_big(endianness: Option<bool>) -> bool {
    endianness == Some(true)
}

/// The number of frame bytes `RawBlock::from_file` reads from `s`: eight, and
/// four more for the magic when it looks for a section header block and finds one.
pub open spec fn frame_size(s: Seq<u8>, endianness: Option<bool>) -> nat {
    if endianness is None && is_section_tag(s) { 12 } else { 8 }
}

/// `RawBlock::from_file` fails on `s`: the frame is cut short.
pub open spec fn frame_fails(s: Seq<u8>, endianness: Option<bool>) -> bool {
    s.len() < frame_size(s, endianness)
}

/// A section header block at the start of `s` is big-endian.
pub open spec fn section_is_big(s: Seq<u8>) -> bool {
    is_big_endian_magic(s.skip(8))
}

/// The `endianness` that `RawBlock::from_file` records: the byte order of a
/// section header block found where a section was expected, else `None`.
pub open spec fn frame_endianness(s: Seq<u8>, endianness: Option<bool>) -> Option<bool> {
    if endianness is None && is_section_tag(s) {
        Some(section_is_big(s))
    } else {
        None
    }
}

/// The block type read from `s`: in the given byte order, or in the section's
/// own; 0 when a section header block was expected and not found.
pub open spec fn frame_type(s: Seq<u8>, endianness: Option<bool>) -> u32 {
    match endianness {
        Some(big) => u32_from(s, big),
        None => if is_section_tag(s) { u32_from(s, section_is_big(s)) } else { 0 },
    }
}

/// The block length read from `s`, chosen as `frame_type` chooses.
pub open spec fn frame_len(s: Seq<u8>, endianness: Option<bool>) -> u32 {
    match endianness {
        Some(big) => u32_from(s.skip(4), big),
        None => if is_section_tag(s) { u32_from(s.skip(4), section_is_big(s)) } else { 0 },
    }
}

/// `RawBlock::from_file` returns on `s`: either the frame is cut short, or the
/// declared length covers the frame. Otherwise the remaining length underflows.
pub open spec fn frame_fits(s: Seq<u8>, endianness: Option<bool>) -> bool {
    frame_fails(s, endianness) || frame_len(s, endianness) >= frame_size(s, endianness)
}

/// The body `RawBlock::from_file` reads: the bytes after the frame, as many
/// as the declared length leaves, or fewer where `s` ends first.
pub open spec fn block_body(s: Seq<u8>, endianness: Option<bool>) -> Seq<u8> {
    let k = frame_size(s, endianness);
    let want = frame_len(s, endianness) - k;
    let have = s.len() - k;
    s.subrange(k as int, k + if want < have { want } else { have })
}

/// Reading a block whose byte order is already known records no byte order:
/// only a section header block read as the opening of a section carries one.
pub proof fn lemma_known_order_records_none(s: Seq<u8>, big: bool)
    ensures
        frame_endianness(s, Some(big)) is None,
        frame_size(s, Some(big)) == 8,
{
}

/// With a known byte order, the type is the first four bytes and the length
/// the next four, most significant byte first when the order is big-endian
/// and last otherwise; the body is what follows the eight frame bytes, cut at
/// the declared length or at the end of `s`.
pub proof fn lemma_known_order_frame(s: Seq<u8>, big: bool)
    requires
        s.len() >= 8,
    ensures
        frame_type(s, Some(big)) == (if big {
            s[0] * 0x100_0000 + s[1] * 0x1_0000 + s[2] * 0x100 + s[3]
        } else {
            s[3] * 0x100_0000 + s[2] * 0x1_0000 + s[1] * 0x100 + s[0]
        }),
        frame_len(s, Some(big)) == (if big {
            s[4] * 0x100_0000 + s[5] * 0x1_0000 + s[6] * 0x100 + s[7]
        } else {
            s[7] * 0x100_0000 + s[6] * 0x1_0000 + s[5] * 0x100 + s[4]
        }),
        frame_size(s, Some(big)) == 8,
        !frame_fails(s, Some(big)),
        frame_len(s, Some(big)) >= 8 ==> block_body(s, Some(big)) == s.subrange(
            8,
            if frame_len(s, Some(big)) <= s.len() { frame_len(s, Some(big)) as int } else { s.len() as int },
        ),
{
}

/// Bodies are read big-endian only when the block records `Some(true)`;
/// `Some(false)` and `None` both mean little-endian.
pub proof fn lemma_byte_order_choice()
    ensures
        is_big(Some(true)),
        !is_big(Some(false)),
        !is_big(None),
{
}

/// When `RawBlock::from_file` fails and when it returns: with a known byte
/// order it fails on fewer than eight bytes and returns when the length
/// (bytes 4 to 7 in that order) is at least eight; where a section is
/// expected it also fails on a section header block of fewer than twelve
/// bytes, and panics on any complete frame that is not a section header block.
pub proof fn lemma_frame_outcome(s: Seq<u8>, big: bool)
    ensures
        frame_fails(s, Some(big)) <==> s.len() < 8,
        frame_fails(s, None) <==> (s.len() < 8 || (is_section_tag(s) && s.len() < 12)),
        frame_fits(s, Some(big)) <==> (s.len() < 8 || (if big {
            s[4] * 0x100_0000 + s[5] * 0x1_0000 + s[6] * 0x100 + s[7]
        } else {
            s[7] * 0x100_0000 + s[6] * 0x1_0000 + s[5] * 0x100 + s[4]
        }) >= 8),
        s.len() >= 8 && !is_section_tag(s) ==> !frame_fits(s, None),
        s.len() >= 12 && is_section_tag(s) ==> (frame_fits(s, None) <==> frame_len(s, None) >= 12),
{
}

/// Where a section is expected and a section header block found, the byte
/// order is big-endian exactly when the magic bytes are `1A 2B 3C 4D`; the
/// type is the section type and the length the four bytes after it in that
/// order; the body follows the twelve frame bytes.
pub proof fn lemma_section_frame(s: Seq<u8>)
    requires
        is_section_tag(s),
        s.len() >= 12,
    ensures
        frame_endianness(s, None) == Some(s[8] == 0x1Au8 && s[9] == 0x2Bu8 && s[10] == 0x3Cu8 && s[11] == 0x4Du8),
        frame_type(s, None) == 0x0A0D0D0A,
        frame_len(s, None) == (if s[8] == 0x1Au8 && s[9] == 0x2Bu8 && s[10] == 0x3Cu8 && s[11] == 0x4Du8 {
            s[4] * 0x100_0000 + s[5] * 0x1_0000 + s[6] * 0x100 + s[7]
        } else {
            s[7] * 0x100_0000 + s[6] * 0x1_0000 + s[5] * 0x100 + s[4]
        }),
        frame_size(s, None) == 12,
        frame_len(s, None) >= 12 ==> block_body(s, None) == s.subrange(
            12,
            if frame_len(s, None) <= s.len() { frame_len(s, None) as int } else { s.len() as int },
        ),
{
}

/// Where a section is expected and the block does not start with the
/// section type, no type, length or byte order is read.
pub proof fn lemma_not_a_section(s: Seq<u8>)
    requires
        !is_section_tag(s),
    ensures
        frame_endianness(s, None) is None,
        frame_type(s, None) == 0,
        frame_len(s, None) == 0,
        s.len() >= 8 ==> !frame_fits(s, None),
{
}

/// `RawBlock::from_file` with no byte order and `Header::new` read the same
/// frame from `s`: the same size, the same failure, the same byte order, type
/// and length.
pub proof fn lemma_frame_agrees_with_header(s: Seq<u8>)
    ensures
        frame_size(s, None) == header_size(s),
        frame_fails(s, None) == header_fails(s),
        is_section_tag(s) ==> {
            &&& frame_endianness(s, None) == Some(!header_little_endian(s))
            &&& frame_type(s, None) == u32_from(s, !header_little_endian(s))
            &&& frame_len(s, None) == u32_from(s.skip(4), !header_little_endian(s))
        },
{
}

/// When the file holds the whole block, `RawBlock::from_file` takes exactly
/// the declared length, so the next read starts at the next block; it never
/// takes more than the declared length.
pub proof fn lemma_block_extent(s: Seq<u8>, endianness: Option<bool>)
    requires
        !frame_fails(s, endianness),
        frame_fits(s, endianness),
    ensures
        frame_size(s, endianness) + block_body(s, endianness).len() <= frame_len(s, endianness),
        s.len() >= frame_len(s, endianness) ==>
            frame_size(s, endianness) + block_body(s, endianness).len() == frame_len(s, endianness),
{
}

/// Once the file holds the whole block, the bytes after it change nothing of
/// what `RawBlock::from_file` reads.
pub proof fn lemma_block_ignores_following_bytes(s: Seq<u8>, extra: Seq<u8>, endianness: Option<bool>)
    requires
        !frame_fails(s, endianness),
        frame_fits(s, endianness),
        s.len() >= frame_len(s, endianness),
    ensures
        !frame_fails(s + extra, endianness),
        frame_fits(s + extra, endianness),
        frame_size(s + extra, endianness) == frame_size(s, endianness),
        frame_type(s + extra, endianness) == frame_type(s, endianness),
        frame_len(s + extra, endianness) == frame_len(s, endianness),
        frame_endianness(s + extra, endianness) == frame_endianness(s, endianness),
        block_body(s + extra, endianness) == block_body(s, endianness),
{
    let se = s + extra;
    assert(se.skip(4)[0] == s.skip(4)[0] && se.skip(4)[1] == s.skip(4)[1]);
    assert(se.skip(4)[2] == s.skip(4)[2] && se.skip(4)[3] == s.skip(4)[3]);
    if endianness is None && is_section_tag(s) {
        assert(se.skip(8)[0] == s.skip(8)[0] && se.skip(8)[1] == s.skip(8)[1]);
        assert(se.skip(8)[2] == s.skip(8)[2] && se.skip(8)[3] == s.skip(8)[3]);
    }
    assert(block_body(se, endianness) =~= block_body(s, endianness));
}

/// The head of a block's listing: type as a padded hexadecimal field, then
/// file position and declared length.
pub open spec fn block_prefix(rb: RawBlock) -> Seq<char> {
    hex_field(rb.blktype as nat) + " ("@ + dec_text(rb.filepos as nat) + " for "@
        + dec_text(rb.blklen as nat) + " bytes)"@
}

/// The listing of a block: its head, then its body as text.
pub open spec fn raw_block_text(rb: RawBlock) -> Seq<char> {
    block_prefix(rb) + " "@ + utf8_lossy(rb.data@)
}

/// The head of a block's listing starts with its type as a padded
/// hexadecimal field and shows its file position before ` for ` and its
/// declared length before ` bytes)`, which ends it; the block's listing is
/// that head, a space, and its body as text.
#[verifier::rlimit(50)]
pub proof fn lemma_block_listing(rb: RawBlock)
    ensures
        starts_with(block_prefix(rb), hex_field(rb.blktype as nat) + " ("@),
        shows(block_prefix(rb), " ("@ + dec_text(rb.filepos as nat) + " for "@ + dec_text(rb.blklen as nat) + " bytes)"@),
        ends_with(block_prefix(rb), " for "@ + dec_text(rb.blklen as nat) + " bytes)"@),
        raw_block_text(rb) == block_prefix(rb) + " "@ + utf8_lossy(rb.data@),
{
    let a = hex_field(rb.blktype as nat);
    let p = dec_text(rb.filepos as nat);
    let l = dec_text(rb.blklen as nat);
    let (o, f, b) = (" ("@, " for "@, " bytes)"@);
    assert(block_prefix(rb) == a + o + p + f + l + b);
    lemma_regroup(a, o, p, f, l, b);
    lemma_parts(a + o, p + f + l + b, Seq::<char>::empty());
    lemma_parts(a, o + p + f + l + b, Seq::<char>::empty());
    lemma_parts(a + o + p, Seq::<char>::empty(), f + l + b);
}

/// Regroupings of a text made of six parts.
proof fn lemma_regroup(a: Seq<char>, o: Seq<char>, p: Seq<char>, f: Seq<char>, l: Seq<char>, b: Seq<char>)
    ensures
        a + o + p + f + l + b == (a + o) + (p + f + l + b) + Seq::<char>::empty(),
        a + o + p + f + l + b == a + (o + p + f + l + b) + Seq::<char>::empty(),
        a + o + p + f + l + b == (a + o + p) + Seq::<char>::empty() + (f + l + b),
{
    assert(a + o + p + f + l + b =~= (a + o) + (p + f + l + b) + Seq::<char>::empty());
    assert(a + o + p + f + l + b =~= a + (o + p + f + l + b) + Seq::<char>::empty());
    assert(a + o + p + f + l + b =~= (a + o + p) + Seq::<char>::empty() + (f + l + b));
}

/// Appends the head of `rb`'s listing.
pub fn push_block_prefix(out: &mut String, rb: &RawBlock)
    ensures
        final(out)@ == old(out)@ + block_prefix(*rb),
{
    push_hex_field(out, rb.blktype as u64);
    out.append(" (");
    push_dec(out, rb.filepos);
    out.append(" for ");
    push_dec(out, rb.blklen as u64);
    out.append(" bytes)");
    assert(out@ =~= old(out)@ + block_prefix(*rb));
}

impl RawBlock {
    /// The listing of this block: type, position, length, and body as text.
    pub fn to_string(&self) -> (s: String)
        ensures
            s@ == raw_block_text(*self),
    {
        let mut s = String::new();
        push_block_prefix(&mut s, self);
        s.append(" ");
        push_lossy(&mut s, self.data.as_slice());
        assert(s@ =~= raw_block_text(*self));
        s
    }

    /// A block at position 0 with type 0, length 0, no byte order and no body.
    pub fn default() -> (rb: RawBlock)
        ensures
            rb.filepos == 0,
            rb.blktype == 0,
            rb.blklen == 0,
            rb.endianness is None,
            rb.data@ == Seq::<u8>::empty(),
    {
        RawBlock { filepos: 0, blktype: 0, blklen: 0, endianness: None, data: Vec::new() }
    }

    /// Reads the frame of a section header block, which sets the byte order of
    /// its section. Returns `Ok(None)`, leaving all but `filepos` as they were,
    /// when the block does not start with the section type; otherwise records
    /// and returns `Some(big_endian)`, decided by the byte-order magic.
    fn read_raw_section(&mut self, file: &mut ByteCursor) -> (r: Result<Option<bool>, BlockError>)
        ensures
            final(file).contents() == old(file).contents(),
            final(self).filepos == old(file).position(),
            final(self).data == old(self).data,
            r is Err <==> frame_fails(old(file).rest(), None),
            r is Err ==> {
                &&& final(file).position() == old(file).contents().len()
                &&& final(self).endianness == old(self).endianness
                &&& final(self).blktype == old(self).blktype
                &&& final(self).blklen == old(self).blklen
            },
            r matches Ok(e) ==> {
                let s = old(file).rest();
                &&& e == frame_endianness(s, None)
                &&& final(file).position() == old(file).position() + frame_size(s, None)
                &&& final(file).rest() == s.skip(frame_size(s, None) as int)
                &&& if is_section_tag(s) {
                    &&& final(self).endianness == e
                    &&& final(self).blktype == frame_type(s, None)
                    &&& final(self).blklen == frame_len(s, None)
                } else {
                    &&& final(self).endianness == old(self).endianness
                    &&& final(self).blktype == old(self).blktype
                    &&& final(self).blklen == old(self).blklen
                }
            },
    {
        let ghost s = file.rest();
        let header: [u8; 4] = [0xA, 0xD, 0xD, 0xA];
        let magic: [u8; 4] = [0x1A, 0x2B, 0x3C, 0x4D];

        self.filepos = file.stream_position();
        let h = file.read_exact(4)?;
        let l = file.read_exact(4)?;
        assert(s.skip(4).skip(4) =~= s.skip(8));
        assert(l@ =~= s.skip(4).take(4));

        let mut sec = true;
        let mut index: usize = 0;
        while index < 4
            invariant
                h@.len() == 4,
                h@ == s.take(4),
                index <= 4,
                sec == (forall|j: int| 0 <= j < index ==> h@[j] == header@[j]),
            decreases 4 - index,
        {
            if h[index] != header[index] {
                sec = false;
            }
            index = index + 1;
        }
        if !sec {
            return Ok(None);
        }
        assert(is_section_tag(s));

        let m = file.read_exact(4)?;
        assert(s.skip(8).skip(4) =~= s.skip(12));
        if m[0] == magic[0] && m[1] == magic[1] && m[2] == magic[2] && m[3] == magic[3] {
            self.endianness = Some(true);
        } else {
            self.endianness = Some(false);
        }

        match self.endianness {
            Some(false) => {
                self.blktype = decode_u32(h.as_slice(), false);
                self.blklen = decode_u32(l.as_slice(), false);
            },
            Some(true) => {
                self.blktype = decode_u32(h.as_slice(), true);
                self.blklen = decode_u32(l.as_slice(), true);
            },
            None => {
                return Ok(None);
            },
        }
        Ok(self.endianness)
    }

    /// Reads the frame of a block whose byte order is known, and returns the
    /// block's `endianness`, which it leaves as it was.
    fn read_raw_block(&mut self, file: &mut ByteCursor, big: bool) -> (r: Result<Option<bool>, BlockError>)
        ensures
            final(file).contents() == old(file).contents(),
            final(self).filepos == old(file).position(),
            final(self).data == old(self).data,
            final(self).endianness == old(self).endianness,
            r is Err <==> old(file).rest().len() < 8,
            r is Err ==> {
                &&& final(file).position() == old(file).contents().len()
                &&& final(self).blktype == (if old(file).rest().len() >= 4 {
                    u32_from(old(file).rest(), big)
                } else {
                    old(self).blktype
                })
                &&& final(self).blklen == old(self).blklen
            },
            r matches Ok(e) ==> {
                let s = old(file).rest();
                &&& e == old(self).endianness
                &&& final(self).blktype == u32_from(s, big)
                &&& final(self).blklen == u32_from(s.skip(4), big)
                &&& final(file).position() == old(file).position() + 8
                &&& final(file).rest() == s.skip(8)
            },
    {
        let ghost s = file.rest();
        self.filepos = file.stream_position();
        self.blktype = file.read_u32(big)?;
        self.blklen = file.read_u32(big)?;
        assert(s.skip(4).skip(4) =~= s.skip(8));
        Ok(self.endianness)
    }

    /// Reads one block from `file`: its frame, in the byte order `endianness`
    /// gives, or, when `endianness` is `None`, as the section header block
    /// that opens a section; then as much of its body as the declared length
    /// leaves and the file holds. Fails when the frame is cut short.
    pub fn from_file(file: &mut ByteCursor, endianness: Option<bool>) -> (r: Result<RawBlock, BlockError>)
        requires
            frame_fits(old(file).rest(), endianness),
        ensures
            final(file).contents() == old(file).contents(),
            r is Err <==> frame_fails(old(file).rest(), endianness),
            r is Err ==> {
                &&& r == Err::<RawBlock, BlockError>(BlockError::UnexpectedEof)
                &&& final(file).position() == old(file).contents().len()
            },
            r matches Ok(rb) ==> {
                let s = old(file).rest();
                let taken = frame_size(s, endianness) + block_body(s, endianness).len();
                &&& rb.filepos == old(file).position()
                &&& rb.blktype == frame_type(s, endianness)
                &&& rb.blklen == frame_len(s, endianness)
                &&& rb.endianness == frame_endianness(s, endianness)
                &&& rb.data@ == block_body(s, endianness)
                &&& final(file).position() == old(file).position() + taken
                &&& final(file).rest() == s.skip(taken as int)
            },
    {
        let ghost s = file.rest();
        let mut rb = RawBlock::default();

        match endianness {
            Some(true) => {
                rb.read_raw_block(file, true)?;
            },
            Some(false) => {
                rb.read_raw_block(file, false)?;
            },
            None => {
                rb.read_raw_section(file)?;
            },
        }

        let ghost k = frame_size(s, endianness);
        let mut cnt_to_end = file.stream_position();
        cnt_to_end = cnt_to_end - rb.filepos;
        cnt_to_end = rb.blklen as u64 - cnt_to_end;
        file.read_to_end_limited(cnt_to_end, &mut rb.data);
        assert(rb.data@ =~= block_body(s, endianness));
        assert(file.rest() =~= s.skip((k + block_body(s, endianness).len()) as int));
        Ok(rb)
    }

    /// Whether `RawBlock::from_file(file, endianness)` returns rather than
    /// panics: false exactly when the frame is complete and its declared length
    /// is shorter than the frame itself.
    pub fn from_file_completes(file: &ByteCursor, endianness: Option<bool>) -> (r: bool)
        ensures
            r == frame_fits(file.rest(), endianness),
    {
        let ghost s = file.rest();
        let head = file.peek(12);
        if head.len() < 8 {
            return true;
        }
        let lenbytes: [u8; 4] = [head[4], head[5], head[6], head[7]];
        assert(lenbytes@ =~= s.skip(4).take(4));
        match endianness {
            Some(big) => {
                let len = decode_u32(lenbytes.as_slice(), big);
                len >= 8
            },
            None => {
                if !(head[0] == 0xA && head[1] == 0xD && head[2] == 0xD && head[3] == 0xA) {
                    return false;
                }
                if head.len() < 12 {
                    return true;
                }
                let big = head[8] == 0x1A && head[9] == 0x2B && head[10] == 0x3C && head[11] == 0x4D;
                let len = decode_u32(lenbytes.as_slice(), big);
                len >= 12
            },
        }
    }
}

} // verus!
