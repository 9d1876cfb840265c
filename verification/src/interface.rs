//! The interface description block: link type and snapshot length.
use vstd::prelude::*;
use crate::cursor::ByteCursor;
use crate::endian::{u16_from, u32_from};
use crate::error::BlockError;
use crate::option::{option_lines, option_views, push_option_lines, read_options, scan_options, OptionValue};
use crate::rawblock::{block_prefix, is_big, push_block_prefix, RawBlock};
use crate::text::{dec_text, ends_with, lemma_parts, push_dec, shows, starts_with};

verus! {

/// An interface description block.
#[derive(Debug)]
pub struct InterfaceBlock {
    pub header: RawBlock,
    pub linktype: u16,
    pub reserved: u16,
    pub snaplen: u32,
    pub options: Vec<OptionValue>,
}

/// `InterfaceBlock::try_from` returns on a block with body `d`: the fixed
/// fields are cut short, or the options after them end with an end-of-options
/// option.
pub open spec fn interface_completes(d: Seq<u8>, big: bool) -> bool {
    d.len() >= 8 ==> scan_options(d.skip(8), big).1
}

/// The listing of an interface description block: the block's head, version
/// fields and snapshot length on one line, then its options.
pub open spec fn interface_text(ib: InterfaceBlock) -> Seq<char> {
    block_prefix(ib.header) + " (v"@ + dec_text(ib.linktype as nat) + "."@ + dec_text(ib.reserved as nat)
        + ") max packet size = "@ + dec_text(ib.snaplen as nat) + "\n"@ + option_lines(option_views(ib.options@))
}

/// An interface block's body: link type at bytes 0 and 1, reserved field at
/// 2 and 3, snapshot length at 4 to 7, in the block's byte order, options from
/// byte 8; `try_from` returns when the body is shorter than eight bytes or the
/// options end with an end-of-options option.
pub proof fn lemma_interface_layout(d: Seq<u8>, big: bool)
    ensures
        interface_completes(d, big) <==> (d.len() < 8 || scan_options(d.skip(8), big).1),
        d.len() >= 8 ==> {
            &&& u16_from(d, big) == (if big { d[0] * 0x100 + d[1] } else { d[1] * 0x100 + d[0] })
            &&& u16_from(d.skip(2), big) == (if big { d[2] * 0x100 + d[3] } else { d[3] * 0x100 + d[2] })
            &&& u32_from(d.skip(4), big) == (if big {
                d[4] * 0x100_0000 + d[5] * 0x1_0000 + d[6] * 0x100 + d[7]
            } else {
                d[7] * 0x100_0000 + d[6] * 0x1_0000 + d[5] * 0x100 + d[4]
            })
        },
{
}

/// The listing of an interface block starts with the block's head, shows
/// the link type and reserved field after ` (v` and the snapshot length after
/// `max packet size = `, and ends with the options.
pub proof fn lemma_interface_listing(ib: InterfaceBlock)
    ensures
        starts_with(interface_text(ib), block_prefix(ib.header)),
        shows(
            interface_text(ib),
            " (v"@ + dec_text(ib.linktype as nat) + "."@ + dec_text(ib.reserved as nat) + ") max packet size = "@
                + dec_text(ib.snaplen as nat) + "\n"@,
        ),
        ends_with(interface_text(ib), option_lines(option_views(ib.options@))),
{
    let x = " (v"@ + dec_text(ib.linktype as nat) + "."@ + dec_text(ib.reserved as nat) + ") max packet size = "@
        + dec_text(ib.snaplen as nat) + "\n"@;
    assert(interface_text(ib) =~= block_prefix(ib.header) + x + option_lines(option_views(ib.options@)));
    lemma_parts(block_prefix(ib.header), x, option_lines(option_views(ib.options@)));
}

impl InterfaceBlock {
    /// The listing of this block.
    pub fn to_string(&self) -> (s: String)
        ensures
            s@ == interface_text(*self),
    {
        let mut s = String::new();
        push_block_prefix(&mut s, &self.header);
        s.append(" (v");
        push_dec(&mut s, self.linktype as u64);
        s.append(".");
        push_dec(&mut s, self.reserved as u64);
        s.append(") max packet size = ");
        push_dec(&mut s, self.snaplen as u64);
        s.append("\n");
        push_option_lines(&mut s, &self.options);
        assert(s@ =~= interface_text(*self));
        s
    }

    /// Interprets an interface description block: link type, reserved field
    /// and snapshot length in the byte order the block records, then its
    /// options. Fails when the body is shorter than the fixed fields.
    pub fn try_from(value: RawBlock) -> (r: Result<InterfaceBlock, BlockError>)
        requires
            interface_completes(value.data@, is_big(value.endianness)),
        ensures
            r is Err <==> value.data@.len() < 8,
            r is Err ==> r == Err::<InterfaceBlock, BlockError>(BlockError::UnexpectedEof),
            r matches Ok(ib) ==> {
                let d = value.data@;
                let big = is_big(value.endianness);
                &&& ib.header == value
                &&& ib.linktype == u16_from(d, big)
                &&& ib.reserved == u16_from(d.skip(2), big)
                &&& ib.snaplen == u32_from(d.skip(4), big)
                &&& option_views(ib.options@) == scan_options(d.skip(8), big).0
            },
    {
        let ghost d = value.data@;
        let big = match value.endianness {
            Some(true) => true,
            _ => false,
        };
        let mut bl_cursor = ByteCursor::copy_of(&value.data);
        let linktype = bl_cursor.read_u16(big)?;
        let reserved = bl_cursor.read_u16(big)?;
        let snaplen = bl_cursor.read_u32(big)?;
        assert(d.skip(2).skip(2) =~= d.skip(4));
        assert(d.skip(4).skip(4) =~= d.skip(8));
        let mut ib = InterfaceBlock { header: value, linktype, reserved, snaplen, options: Vec::new() };
        ib.extract_options(&mut bl_cursor, big);
        assert(option_views(ib.options@) =~= scan_options(d.skip(8), big).0);
        Ok(ib)
    }

    /// Appends the options read from `source` up to and including the
    /// end-of-options option.
    fn extract_options(&mut self, source: &mut ByteCursor, big: bool)
        requires
            scan_options(old(source).rest(), big).1,
        ensures
            option_views(final(self).options@) == option_views(old(self).options@) + scan_options(old(source).rest(), big).0,
            final(source).contents() == old(source).contents(),
            final(source).rest() == old(source).rest().skip(scan_options(old(source).rest(), big).2 as int),
            final(self).header == old(self).header,
            final(self).linktype == old(self).linktype,
            final(self).reserved == old(self).reserved,
            final(self).snaplen == old(self).snaplen,
    {
        read_options(source, big, &mut self.options).unwrap();
    }

    /// Whether `InterfaceBlock::try_from(value)` returns rather than panics:
    /// false exactly when the fixed fields are there and the options after
    /// them run out before an end-of-options option.
    pub fn try_from_completes(value: &RawBlock) -> (r: bool)
        ensures
            r == interface_completes(value.data@, is_big(value.endianness)),
    {
        let big = match value.endianness {
            Some(true) => true,
            _ => false,
        };
        let mut c = ByteCursor::copy_of(&value.data);
        match c.read_exact(8) {
            Err(_) => true,
            Ok(_) => {
                let mut scratch: Vec<OptionValue> = Vec::new();
                read_options(&mut c, big, &mut scratch).is_ok()
            },
        }
    }
}

} // verus!
