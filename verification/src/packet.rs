//! The enhanced packet block: one captured packet.
use vstd::prelude::*;
use crate::cursor::ByteCursor;
use crate::endian::u32_from;
use crate::error::BlockError;
use crate::option::{option_lines, option_views, push_option_lines, OptionValue};
use crate::rawblock::{block_prefix, is_big, push_block_prefix, RawBlock};
use crate::text::{dec_text, ends_with, lemma_parts, push_dec, push_lossy, shows, starts_with, utf8_lossy};

verus! {

/// An enhanced packet block.
#[derive(Debug)]
pub struct PacketBlock {
    pub header: RawBlock,
    pub interfaceid: u32,
    pub timestamp_high: u32,
    pub timestamp_low: u32,
    pub cap_packet_len: u32,
    pub orig_packet_len: u32,
    /// The captured bytes, with the padding read after them.
    pub data: Vec<u8>,
    pub options: Vec<OptionValue>,
}

/// The captured length recorded in a packet block with body `d`.
pub open spec fn packet_cap_len(d: Seq<u8>, big: bool) -> u32 {
    u32_from(d.skip(12), big)
}

/// How many bytes are read as packet data: the captured length plus its
/// remainder modulo four, or what is left of `d` when that is less.
pub open spec fn packet_data_len(d: Seq<u8>, big: bool) -> nat {
    let cap = packet_cap_len(d, big);
    let want = cap + cap % 4;
    let have = d.len() - 20;
    (if want < have { want } else { have }) as nat
}

/// The bytes left after the packet data.
pub open spec fn packet_trailer_len(d: Seq<u8>, big: bool) -> int {
    d.len() - 20 - packet_data_len(d, big)
}

/// `PacketBlock::try_from` returns on a block with body `d`: the fixed fields
/// are cut short, or the padded length fits in 32 bits and at most four bytes
/// (the closing length field) follow the packet data. With more after it, the
/// option reader of this block type spins forever.
pub open spec fn packet_completes(d: Seq<u8>, big: bool) -> bool {
    d.len() >= 20 ==> {
        &&& packet_cap_len(d, big) + packet_cap_len(d, big) % 4 <= u32::MAX
        &&& packet_trailer_len(d, big) <= 4
    }
}

/// The listing of an enhanced packet block: the block's head, interface id,
/// timestamp halves and lengths on one line, the packet bytes as text on the
/// next, then its options.
pub open spec fn packet_text(pb: PacketBlock) -> Seq<char> {
    block_prefix(pb.header) + " iface="@ + dec_text(pb.interfaceid as nat) + " ("@
        + dec_text(pb.timestamp_high as nat) + "."@ + dec_text(pb.timestamp_low as nat)
        + ") packet size = "@ + dec_text(pb.cap_packet_len as nat) + " (of "@
        + dec_text(pb.orig_packet_len as nat) + ")\n"@ + utf8_lossy(pb.data@) + "\n"@
        + option_lines(option_views(pb.options@))
}

/// The captured length is the fourth four-byte field of the body (bytes 12
/// to 15), not the fifth (the original length, bytes 16 to 19); the packet
/// data is that many bytes plus the remainder modulo four, from byte 20 on,
/// or fewer where the body ends first.
pub proof fn lemma_packet_fields(d: Seq<u8>, big: bool)
    requires
        d.len() >= 20,
    ensures
        packet_cap_len(d, big) == (if big {
            d[12] * 0x100_0000 + d[13] * 0x1_0000 + d[14] * 0x100 + d[15]
        } else {
            d[15] * 0x100_0000 + d[14] * 0x1_0000 + d[13] * 0x100 + d[12]
        }),
        packet_data_len(d, big) == (if packet_cap_len(d, big) + packet_cap_len(d, big) % 4 <= d.len() - 20 {
            (packet_cap_len(d, big) + packet_cap_len(d, big) % 4) as nat
        } else {
            (d.len() - 20) as nat
        }),
        20 + packet_data_len(d, big) + packet_trailer_len(d, big) == d.len(),
        packet_completes(d, big) <==> (packet_cap_len(d, big) + packet_cap_len(d, big) % 4 <= 0xFFFF_FFFF
            && packet_trailer_len(d, big) <= 4),
        packet_trailer_len(d, big) >= 0,
{
}

/// The listing of a packet block starts with the block's head, shows the
/// interface id, the timestamp halves, the captured length after
/// `packet size = ` and the original length after `(of `, then the packet
/// bytes as text on a line of their own, and ends with the options.
pub proof fn lemma_packet_listing(pb: PacketBlock)
    ensures
        starts_with(packet_text(pb), block_prefix(pb.header)),
        shows(
            packet_text(pb),
            " iface="@ + dec_text(pb.interfaceid as nat) + " ("@ + dec_text(pb.timestamp_high as nat) + "."@
                + dec_text(pb.timestamp_low as nat) + ") packet size = "@ + dec_text(pb.cap_packet_len as nat)
                + " (of "@ + dec_text(pb.orig_packet_len as nat) + ")\n"@ + utf8_lossy(pb.data@) + "\n"@,
        ),
        ends_with(packet_text(pb), option_lines(option_views(pb.options@))),
{
    let pre = block_prefix(pb.header);
    let x = " iface="@ + dec_text(pb.interfaceid as nat) + " ("@ + dec_text(pb.timestamp_high as nat) + "."@
        + dec_text(pb.timestamp_low as nat) + ") packet size = "@ + dec_text(pb.cap_packet_len as nat)
        + " (of "@ + dec_text(pb.orig_packet_len as nat) + ")\n"@ + utf8_lossy(pb.data@) + "\n"@;
    let post = option_lines(option_views(pb.options@));
    assert(packet_text(pb) =~= pre + x + post);
    lemma_parts(pre, x, post);
}

impl PacketBlock {
    /// The listing of this block.
    pub fn to_string(&self) -> (s: String)
        ensures
            s@ == packet_text(*self),
    {
        let mut s = String::new();
        push_block_prefix(&mut s, &self.header);
        s.append(" iface=");
        push_dec(&mut s, self.interfaceid as u64);
        s.append(" (");
        push_dec(&mut s, self.timestamp_high as u64);
        s.append(".");
        push_dec(&mut s, self.timestamp_low as u64);
        s.append(") packet size = ");
        push_dec(&mut s, self.cap_packet_len as u64);
        s.append(" (of ");
        push_dec(&mut s, self.orig_packet_len as u64);
        s.append(")\n");
        push_lossy(&mut s, self.data.as_slice());
        s.append("\n");
        push_option_lines(&mut s, &self.options);
        assert(s@ =~= packet_text(*self));
        s
    }

    /// Interprets an enhanced packet block: interface id, the two halves of
    /// the timestamp, captured and original length in the byte order the
    /// block records, then the captured length plus its remainder modulo four
    /// of packet bytes, or as many as there are. Fails when the body is
    /// shorter than the fixed fields. No options are read.
    pub fn try_from(value: RawBlock) -> (r: Result<PacketBlock, BlockError>)
        requires
            packet_completes(value.data@, is_big(value.endianness)),
        ensures
            r is Err <==> value.data@.len() < 20,
            r is Err ==> r == Err::<PacketBlock, BlockError>(BlockError::UnexpectedEof),
            r matches Ok(pb) ==> {
                let d = value.data@;
                let big = is_big(value.endianness);
                &&& pb.header == value
                &&& pb.interfaceid == u32_from(d, big)
                &&& pb.timestamp_high == u32_from(d.skip(4), big)
                &&& pb.timestamp_low == u32_from(d.skip(8), big)
                &&& pb.cap_packet_len == packet_cap_len(d, big)
                &&& pb.orig_packet_len == u32_from(d.skip(16), big)
                &&& pb.data@ == d.subrange(20, 20 + packet_data_len(d, big) as int)
                &&& pb.options@ == Seq::<OptionValue>::empty()
            },
    {
        let ghost d = value.data@;
        let big = match value.endianness {
            Some(true) => true,
            _ => false,
        };
        let mut bl_cursor = ByteCursor::copy_of(&value.data);
        let interfaceid = bl_cursor.read_u32(big)?;
        let timestamp_high = bl_cursor.read_u32(big)?;
        let timestamp_low = bl_cursor.read_u32(big)?;
        let cap_packet_len = bl_cursor.read_u32(big)?;
        let orig_packet_len = bl_cursor.read_u32(big)?;
        assert(d.skip(4).skip(4) =~= d.skip(8));
        assert(d.skip(8).skip(4) =~= d.skip(12));
        assert(d.skip(12).skip(4) =~= d.skip(16));
        assert(d.skip(16).skip(4) =~= d.skip(20));

        let padding = cap_packet_len % 4;
        let mut data: Vec<u8> = Vec::new();
        bl_cursor.read_to_end_limited((cap_packet_len + padding) as u64, &mut data);
        assert(data@ =~= d.subrange(20, 20 + packet_data_len(d, big) as int));

        let mut buffer: Vec<u8> = Vec::new();
        bl_cursor.read_to_end(&mut buffer);
        assert(buffer@.len() <= 4);

        Ok(PacketBlock {
            header: value,
            interfaceid,
            timestamp_high,
            timestamp_low,
            cap_packet_len,
            orig_packet_len,
            data,
            options: Vec::new(),
        })
    }

    /// Whether `PacketBlock::try_from(value)` returns: false exactly when the
    /// fixed fields are there and either the padded length overflows 32 bits
    /// or more than four bytes follow the packet data.
    pub fn try_from_completes(value: &RawBlock) -> (r: bool)
        ensures
            r == packet_completes(value.data@, is_big(value.endianness)),
    {
        let ghost d = value.data@;
        let big = match value.endianness {
            Some(true) => true,
            _ => false,
        };
        let mut c = ByteCursor::copy_of(&value.data);
        let fixed = c.read_exact(12);
        if fixed.is_err() {
            return true;
        }
        let cap = match c.read_u32(big) {
            Ok(v) => v,
            Err(_) => { return true; },
        };
        assert(d.skip(12).skip(4) =~= d.skip(16));
        if c.read_exact(4).is_err() {
            return true;
        }
        assert(d.skip(16).skip(4) =~= d.skip(20));
        let padding = cap % 4;
        if cap > u32::MAX - padding {
            return false;
        }
        let want = (cap + padding) as usize;
        let have = c.remaining();
        let taken = if want < have { want } else { have };
        have - taken <= 4
    }
}

} // verus!
