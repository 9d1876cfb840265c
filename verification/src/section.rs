//! The section header block, which opens a section and fixes its byte order.
use vstd::prelude::*;
use crate::cursor::ByteCursor;
use crate::endian::{i64_from, u16_from};
use crate::error::BlockError;
use crate::interface::{interface_text, InterfaceBlock};
use crate::option::{option_lines, option_views, push_option_lines, read_options, scan_options, OptionValue};
use crate::packet::{packet_text, PacketBlock};
use crate::rawblock::{block_prefix, is_big, push_block_prefix, RawBlock};
use crate::text::{dec_text, ends_with, lemma_parts, push_dec, push_signed, shows, signed_text, starts_with};

verus! {

/// A section: its header block, and the interface and packets read after it.
#[derive(Debug)]
pub struct SectionBlock {
    pub header: RawBlock,
    pub minor: u16,
    pub major: u16,
    pub sectionlength: i64,
    pub options: Vec<OptionValue>,
    pub iface: Option<InterfaceBlock>,
    pub packets: Vec<PacketBlock>,
}

/// `SectionBlock::try_from` returns on a block with body `d`: the fixed fields
/// are cut short, or the options after them end with an end-of-options option.
pub open spec fn section_completes(d: Seq<u8>, big: bool) -> bool {
    d.len() >= 12 ==> scan_options(d.skip(12), big).1
}

/// The listings of a sequence of packet blocks, each followed by a newline.
pub open spec fn packets_text(ps: Seq<PacketBlock>) -> Seq<char>
    decreases ps.len(),
{
    if ps.len() == 0 {
        Seq::empty()
    } else {
        packets_text(ps.drop_last()) + packet_text(ps.last()) + "\n"@
    }
}

/// The listing of a section: a title line, the header block's head, version
/// and section length, its options, the interface if one was read, each
/// packet, and a closing line.
pub open spec fn section_text(sb: SectionBlock) -> Seq<char> {
    "--------------Section--------------\n"@ + block_prefix(sb.header) + " (v"@ + dec_text(sb.major as nat)
        + "."@ + dec_text(sb.minor as nat) + ") optionlen = "@ + signed_text(sb.sectionlength as int) + "\n"@
        + option_lines(option_views(sb.options@))
        + (match sb.iface {
            Some(i) => interface_text(i) + "\n"@,
            None => Seq::empty(),
        })
        + packets_text(sb.packets@)
        + "--------------End Section--------------\n"@
}

/// A section header block's body: major version at bytes 0 and 1, minor at 2
/// and 3, in the block's byte order (the section length follows at 4 to 11),
/// options from byte 12; `try_from` returns when the body is shorter than twelve bytes or
/// the options end with an end-of-options option.
pub proof fn lemma_section_layout(d: Seq<u8>, big: bool)
    ensures
        section_completes(d, big) <==> (d.len() < 12 || scan_options(d.skip(12), big).1),
        d.len() >= 12 ==> {
            &&& u16_from(d, big) == (if big { d[0] * 0x100 + d[1] } else { d[1] * 0x100 + d[0] })
            &&& u16_from(d.skip(2), big) == (if big { d[2] * 0x100 + d[3] } else { d[3] * 0x100 + d[2] })
        },
{
}

/// Adding a packet adds its listing and a newline at the end of the packet
/// listings, leaving those before it as they were.
pub proof fn lemma_packets_listing_push(ps: Seq<PacketBlock>, p: PacketBlock)
    ensures
        packets_text(ps.push(p)) == packets_text(ps) + packet_text(p) + "\n"@,
        packets_text(Seq::<PacketBlock>::empty()) == Seq::<char>::empty(),
{
    assert(ps.push(p).drop_last() =~= ps);
}

/// The packet listings show every packet's listing followed by a newline.
pub proof fn lemma_packets_listing_each(ps: Seq<PacketBlock>, i: int)
    requires
        0 <= i < ps.len(),
    ensures
        shows(packets_text(ps), packet_text(ps[i]) + "\n"@),
    decreases ps.len(),
{
    let last = ps.len() - 1;
    if i == last {
        assert(packets_text(ps) =~= packets_text(ps.drop_last()) + (packet_text(ps[i]) + "\n"@) + Seq::<char>::empty());
        lemma_parts(packets_text(ps.drop_last()), packet_text(ps[i]) + "\n"@, Seq::<char>::empty());
    } else {
        let q = ps.drop_last();
        lemma_packets_listing_each(q, i);
        assert(q[i] == ps[i]);
        let x = packet_text(ps[i]) + "\n"@;
        let j = choose|j: int| 0 <= j && j + x.len() <= packets_text(q).len() && #[trigger] packets_text(q).subrange(j, j + x.len()) == x;
        let t = packets_text(ps);
        assert(t =~= packets_text(q) + packet_text(ps[last]) + "\n"@);
        assert(t.subrange(j, j + x.len()) =~= packets_text(q).subrange(j, j + x.len()));
    }
}

/// The listing of a section starts with its title line and the header
/// block's head, shows the version and section length followed by the
/// options, shows the interface if one was read, and ends with the packet
/// listings and the closing line.
#[verifier::rlimit(50)]
pub proof fn lemma_section_listing(sb: SectionBlock)
    ensures
        starts_with(section_text(sb), "--------------Section--------------\n"@ + block_prefix(sb.header)),
        shows(
            section_text(sb),
            " (v"@ + dec_text(sb.major as nat) + "."@ + dec_text(sb.minor as nat) + ") optionlen = "@
                + signed_text(sb.sectionlength as int) + "\n"@ + option_lines(option_views(sb.options@)),
        ),
        ends_with(section_text(sb), packets_text(sb.packets@) + "--------------End Section--------------\n"@),
        sb.iface matches Some(i) ==> shows(section_text(sb), interface_text(i) + "\n"@),
{
    let pre = "--------------Section--------------\n"@ + block_prefix(sb.header);
    let x = " (v"@ + dec_text(sb.major as nat) + "."@ + dec_text(sb.minor as nat) + ") optionlen = "@
        + signed_text(sb.sectionlength as int) + "\n"@ + option_lines(option_views(sb.options@));
    let ifc = match sb.iface {
        Some(i) => interface_text(i) + "\n"@,
        None => Seq::<char>::empty(),
    };
    let post = ifc + (packets_text(sb.packets@) + "--------------End Section--------------\n"@);
    assert(section_text(sb) =~= pre + x + post);
    lemma_parts(pre, x, post);
    let tail = packets_text(sb.packets@) + "--------------End Section--------------\n"@;
    assert(section_text(sb) =~= (pre + x) + ifc + tail);
    lemma_parts(pre + x, ifc, tail);
}

impl SectionBlock {
    /// The listing of this section.
    #[verifier::rlimit(50)]
    pub fn to_string(&self) -> (s: String)
        ensures
            s@ == section_text(*self),
    {
        let mut s = String::new();
        s.append("--------------Section--------------\n");
        push_block_prefix(&mut s, &self.header);
        s.append(" (v");
        push_dec(&mut s, self.major as u64);
        s.append(".");
        push_dec(&mut s, self.minor as u64);
        s.append(") optionlen = ");
        push_signed(&mut s, self.sectionlength);
        s.append("\n");
        push_option_lines(&mut s, &self.options);
        match &self.iface {
            Some(i) => {
                let t = i.to_string();
                s.append(t.as_str());
                s.append("\n");
            },
            None => {},
        }
        let ghost mid = s@;
        let mut k: usize = 0;
        assert(self.packets@.take(0) =~= Seq::<PacketBlock>::empty());
        assert(s@ =~= mid + packets_text(self.packets@.take(0)));
        while k < self.packets.len()
            invariant
                k <= self.packets@.len(),
                s@ == mid + packets_text(self.packets@.take(k as int)),
            decreases self.packets@.len() - k,
        {
            let t = self.packets[k].to_string();
            s.append(t.as_str());
            s.append("\n");
            let ghost ps = self.packets@.take(k + 1);
            assert(ps.drop_last() =~= self.packets@.take(k as int));
            assert(s@ =~= mid + packets_text(ps));
            k = k + 1;
        }
        assert(self.packets@.take(self.packets@.len() as int) =~= self.packets@);
        s.append("--------------End Section--------------\n");
        assert(s@ =~= section_text(*self));
        s
    }

    /// Interprets a section header block: major and minor version, then the
    /// section length, in the byte order the block records, then its options.
    /// Fails when the body is shorter than the fixed fields.
    pub fn try_from(value: RawBlock) -> (r: Result<SectionBlock, BlockError>)
        requires
            section_completes(value.data@, is_big(value.endianness)),
        ensures
            r is Err <==> value.data@.len() < 12,
            r is Err ==> r == Err::<SectionBlock, BlockError>(BlockError::UnexpectedEof),
            r matches Ok(sb) ==> {
                let d = value.data@;
                let big = is_big(value.endianness);
                &&& sb.header == value
                &&& sb.major == u16_from(d, big)
                &&& sb.minor == u16_from(d.skip(2), big)
                &&& sb.sectionlength == i64_from(d.skip(4), big)
                &&& option_views(sb.options@) == scan_options(d.skip(12), big).0
                &&& sb.iface is None
                &&& sb.packets@ == Seq::<PacketBlock>::empty()
            },
    {
        let ghost d = value.data@;
        let big = match value.endianness {
            Some(true) => true,
            _ => false,
        };
        let mut bl_cursor = ByteCursor::copy_of(&value.data);
        let major = bl_cursor.read_u16(big)?;
        let minor = bl_cursor.read_u16(big)?;
        let sectionlength = bl_cursor.read_i64(big)?;
        assert(d.skip(2).skip(2) =~= d.skip(4));
        assert(d.skip(4).skip(8) =~= d.skip(12));
        let mut sb = SectionBlock {
            header: value,
            minor,
            major,
            sectionlength,
            options: Vec::new(),
            iface: None,
            packets: Vec::new(),
        };
        sb.extract_options(&mut bl_cursor, big);
        assert(option_views(sb.options@) =~= scan_options(d.skip(12), big).0);
        Ok(sb)
    }

    /// Appends the options read from `source` up to and including the
    /// end-of-options option.
    fn extract_options(&mut self, source: &mut ByteCursor, big: bool)
        requires
            scan_options(old(source).rest(), big).1,
        ensures
            option_views(final(self).options@) == option_views(old(self).options@) + scan_options(old(source).rest(), big).0,
            final(source).contents() == old(source).contents(),
            final(source).rest() == old(source).rest().skip(scan_options(old(source).rest(), big).2 as int),
            final(self).header == old(self).header,
            final(self).minor == old(self).minor,
            final(self).major == old(self).major,
            final(self).sectionlength == old(self).sectionlength,
            final(self).iface == old(self).iface,
            final(self).packets == old(self).packets,
    {
        read_options(source, big, &mut self.options).unwrap();
    }

    /// Whether `SectionBlock::try_from(value)` returns rather than panics:
    /// false exactly when the fixed fields are there and the options after
    /// them run out before an end-of-options option.
    pub fn try_from_completes(value: &RawBlock) -> (r: bool)
        ensures
            r == section_completes(value.data@, is_big(value.endianness)),
    {
        let big = match value.endianness {
            Some(true) => true,
            _ => false,
        };
        let mut c = ByteCursor::copy_of(&value.data);
        match c.read_exact(12) {
            Err(_) => true,
            Ok(_) => {
                let mut scratch: Vec<OptionValue> = Vec::new();
                read_options(&mut c, big, &mut scratch).is_ok()
            },
        }
    }
}

} // verus!
