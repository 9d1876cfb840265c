//! The interface statistics block: interface id and timestamp.
use vstd::prelude::*;
use crate::cursor::ByteCursor;
use crate::endian::u32_from;
use crate::error::BlockError;
use crate::option::{option_lines, option_views, push_option_lines, read_options, scan_options, OptionValue};
use crate::rawblock::{block_prefix, is_big, push_block_prefix, RawBlock};
use crate::text::{dec_text, ends_with, lemma_parts, push_dec, shows, starts_with};

verus! {

/// An interface statistics block.
#[derive(Debug)]
pub struct InterfaceStatBlock {
    pub header: RawBlock,
    pub interfaceid: u32,
    pub timestamp_high: u32,
    pub timestamp_low: u32,
    pub options: Vec<OptionValue>,
}

/// The listing of an interface statistics block: the block's head, interface
/// id and timestamp halves on one line, then its options.
pub open spec fn interface_stat_text(sb: InterfaceStatBlock) -> Seq<char> {
    block_prefix(sb.header) + " iface="@ + dec_text(sb.interfaceid as nat) + " ("@
        + dec_text(sb.timestamp_high as nat) + "."@ + dec_text(sb.timestamp_low as nat) + ")\n"@
        + option_lines(option_views(sb.options@))
}

/// The listing of an interface statistics block starts with the block's
/// head, shows the interface id after ` iface=` and the timestamp halves
/// high before low, and ends with the options.
pub proof fn lemma_interface_stat_listing(sb: InterfaceStatBlock)
    ensures
        starts_with(interface_stat_text(sb), block_prefix(sb.header)),
        shows(
            interface_stat_text(sb),
            " iface="@ + dec_text(sb.interfaceid as nat) + " ("@ + dec_text(sb.timestamp_high as nat) + "."@
                + dec_text(sb.timestamp_low as nat) + ")\n"@,
        ),
        ends_with(interface_stat_text(sb), option_lines(option_views(sb.options@))),
{
    let x = " iface="@ + dec_text(sb.interfaceid as nat) + " ("@ + dec_text(sb.timestamp_high as nat) + "."@
        + dec_text(sb.timestamp_low as nat) + ")\n"@;
    assert(interface_stat_text(sb) =~= block_prefix(sb.header) + x + option_lines(option_views(sb.options@)));
    lemma_parts(block_prefix(sb.header), x, option_lines(option_views(sb.options@)));
}

impl InterfaceStatBlock {
    /// The listing of this block.
    pub fn to_string(&self) -> (s: String)
        ensures
            s@ == interface_stat_text(*self),
    {
        let mut s = String::new();
        push_block_prefix(&mut s, &self.header);
        s.append(" iface=");
        push_dec(&mut s, self.interfaceid as u64);
        s.append(" (");
        push_dec(&mut s, self.timestamp_high as u64);
        s.append(".");
        push_dec(&mut s, self.timestamp_low as u64);
        s.append(")\n");
        push_option_lines(&mut s, &self.options);
        assert(s@ =~= interface_stat_text(*self));
        s
    }

    /// Interprets an interface statistics block: interface id and the two
    /// halves of the timestamp in the byte order the block records, then its
    /// options. Fails when the body is shorter than the fixed fields, or when
    /// it ends before an end-of-options option.
    pub fn try_from(value: RawBlock) -> (r: Result<InterfaceStatBlock, BlockError>)
        ensures
            r is Err <==> (value.data@.len() < 12 || !scan_options(value.data@.skip(12), is_big(value.endianness)).1),
            r is Err ==> r == Err::<InterfaceStatBlock, BlockError>(BlockError::UnexpectedEof),
            r matches Ok(sb) ==> {
                let d = value.data@;
                let big = is_big(value.endianness);
                &&& sb.header == value
                &&& sb.interfaceid == u32_from(d, big)
                &&& sb.timestamp_high == u32_from(d.skip(4), big)
                &&& sb.timestamp_low == u32_from(d.skip(8), big)
                &&& option_views(sb.options@) == scan_options(d.skip(12), big).0
            },
    {
        let ghost d = value.data@;
        let big = match value.endianness {
            Some(true) => true,
            _ => false,
        };
        let mut bl_cursor = ByteCursor::copy_of(&value.data);
        let interfaceid = bl_cursor.read_u32(big)?;
        let timestamp_high = bl_cursor.read_u32(big)?;
        let timestamp_low = bl_cursor.read_u32(big)?;
        assert(d.skip(4).skip(4) =~= d.skip(8));
        assert(d.skip(8).skip(4) =~= d.skip(12));
        let mut sb = InterfaceStatBlock {
            header: value,
            interfaceid,
            timestamp_high,
            timestamp_low,
            options: Vec::new(),
        };
        sb.extract_options(&mut bl_cursor, big)?;
        assert(option_views(sb.options@) =~= scan_options(d.skip(12), big).0);
        Ok(sb)
    }

    /// Appends the options read from `source` up to and including the
    /// end-of-options option; fails when `source` runs out first, after
    /// appending those read until then.
    fn extract_options(&mut self, source: &mut ByteCursor, big: bool) -> (r: Result<(), BlockError>)
        ensures
            option_views(final(self).options@) == option_views(old(self).options@) + scan_options(old(source).rest(), big).0,
            r is Ok <==> scan_options(old(source).rest(), big).1,
            r is Err ==> r == Err::<(), BlockError>(BlockError::UnexpectedEof),
            final(source).contents() == old(source).contents(),
            r is Ok ==> final(source).rest() == old(source).rest().skip(scan_options(old(source).rest(), big).2 as int),
            r is Err ==> final(source).rest() == Seq::<u8>::empty(),
            final(self).header == old(self).header,
            final(self).interfaceid == old(self).interfaceid,
            final(self).timestamp_high == old(self).timestamp_high,
            final(self).timestamp_low == old(self).timestamp_low,
    {
        read_options(source, big, &mut self.options)
    }
}

} // verus!
