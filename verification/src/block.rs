//! A block read in two steps: first its frame as a `Header`, then its body.
use vstd::prelude::*;
use crate::cursor::ByteCursor;
use crate::error::BlockError;
use crate::header::{header_text, Header};
use crate::text::{ends_with, lemma_parts, push_lossy, shows, starts_with, utf8_lossy};

verus! {

/// A block whose frame was read with `Header::new`, with the rest of its bytes.
#[derive(Debug)]
pub struct RawBlock {
    pub header: Header,
    pub data: Vec<u8>,
}

/// The listing of a block: its frame, then its body as text.
pub open spec fn block_text(rb: RawBlock) -> Seq<char> {
    "Header "@ + header_text(rb.header) + " Data "@ + utf8_lossy(rb.data@)
}

/// The listing of a block starts with `Header `, shows the frame's listing
/// followed by ` Data `, and ends with the body as text.
pub proof fn lemma_block_listing(rb: RawBlock)
    ensures
        starts_with(block_text(rb), "Header "@),
        shows(block_text(rb), header_text(rb.header) + " Data "@),
        ends_with(block_text(rb), utf8_lossy(rb.data@)),
{
    assert(block_text(rb) =~= "Header "@ + (header_text(rb.header) + " Data "@) + utf8_lossy(rb.data@));
    lemma_parts("Header "@, header_text(rb.header) + " Data "@, utf8_lossy(rb.data@));
}

impl RawBlock {
    /// The listing of this block.
    pub fn to_string(&self) -> (s: String)
        ensures
            s@ == block_text(*self),
    {
        let mut s = String::new();
        s.append("Header ");
        let h = self.header.to_string();
        s.append(h.as_str());
        s.append(" Data ");
        push_lossy(&mut s, self.data.as_slice());
        assert(s@ =~= block_text(*self));
        s
    }

    /// Reads the rest of the block whose frame `h` was read last from `f`: as
    /// many bytes as the declared length leaves after those already read since
    /// the block's start, or fewer where the data ends first. Reading from
    /// memory cannot fail, so the result is always `Ok`.
    pub fn new(h: Header, f: &mut ByteCursor) -> (r: Result<RawBlock, BlockError>)
        requires
            h.start <= old(f).position(),
            old(f).position() - h.start <= h.len,
        ensures
            final(f).contents() == old(f).contents(),
            r matches Ok(rb) && {
                let want = h.len - (old(f).position() - h.start);
                let n = if want < old(f).rest().len() { want } else { old(f).rest().len() as int };
                &&& rb.header == h
                &&& rb.data@ == old(f).rest().take(n)
                &&& final(f).rest() == old(f).rest().skip(n)
                &&& final(f).position() == old(f).position() + n
            },
    {
        let mut d: Vec<u8> = Vec::new();
        let mut cnt_to_end = f.stream_position();
        cnt_to_end = cnt_to_end - h.start;
        cnt_to_end = h.len as u64 - cnt_to_end;
        f.read_to_end_limited(cnt_to_end, &mut d);
        assert(d@ =~= Seq::<u8>::empty() + d@);
        Ok(RawBlock { header: h, data: d })
    }
}

} // verus!
