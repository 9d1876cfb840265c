use pcapng_blocks::block::RawBlock as FramedBlock;
use pcapng_blocks::cursor::ByteCursor;
use pcapng_blocks::endian::{decode_i64, decode_u16, decode_u32};
use pcapng_blocks::error::BlockError;
use pcapng_blocks::header::{Header, SECTION_BLOCK_TYPE};
use pcapng_blocks::interface::InterfaceBlock;
use pcapng_blocks::interfacestat::InterfaceStatBlock;
use pcapng_blocks::option::{read_options, OptionValue};
use pcapng_blocks::packet::PacketBlock;
use pcapng_blocks::rawblock::RawBlock;
use pcapng_blocks::section::SectionBlock;
use pcapng_blocks::text::{push_dec, push_hex, push_hex_field, push_signed};

/// A little-endian section header block: version 1.0, section length -1,
/// an end-of-options option and the closing length.
fn le_section() -> Vec<u8> {
    vec![
        0x0A, 0x0D, 0x0D, 0x0A, 0x20, 0x00, 0x00, 0x00, 0x4D, 0x3C, 0x2B, 0x1A, 0x01, 0x00, 0x00, 0x00,
        0xFF, 0xFF, 0xFF, 0xFF, 0xFF, 0xFF, 0xFF, 0xFF, 0x00, 0x00, 0x00, 0x00, 0x20, 0x00, 0x00, 0x00,
    ]
}

/// The same section header block written big-endian.
fn be_section() -> Vec<u8> {
    vec![
        0x0A, 0x0D, 0x0D, 0x0A, 0x00, 0x00, 0x00, 0x20, 0x1A, 0x2B, 0x3C, 0x4D, 0x00, 0x01, 0x00, 0x00,
        0xFF, 0xFF, 0xFF, 0xFF, 0xFF, 0xFF, 0xFF, 0xFE, 0x00, 0x00, 0x00, 0x00, 0x00, 0x00, 0x00, 0x20,
    ]
}

/// A little-endian interface description block: link type 1, snapshot
/// length 65535, an option `if_name` "abc", the end of options.
fn le_interface() -> Vec<u8> {
    vec![
        0x01, 0x00, 0x00, 0x00, 0x24, 0x00, 0x00, 0x00, 0x01, 0x00, 0x00, 0x00, 0xFF, 0xFF, 0x00, 0x00,
        0x02, 0x00, 0x03, 0x00, b'a', b'b', b'c', 0x00, 0x00, 0x00, 0x00, 0x00, 0x00, 0x00, 0x00, 0x00,
        0x24, 0x00, 0x00, 0x00,
    ]
}

/// A little-endian enhanced packet block holding the five bytes "hello".
fn le_packet() -> Vec<u8> {
    vec![
        0x06, 0x00, 0x00, 0x00, 0x26, 0x00, 0x00, 0x00, 0x00, 0x00, 0x00, 0x00, 0x01, 0x00, 0x00, 0x00,
        0x02, 0x00, 0x00, 0x00, 0x05, 0x00, 0x00, 0x00, 0x05, 0x00, 0x00, 0x00, b'h', b'e', b'l', b'l',
        b'o', 0x00, 0x26, 0x00, 0x00, 0x00,
    ]
}

#[test]
fn decodes_both_byte_orders() {
    assert_eq!(decode_u16(&[0x01, 0x02], false), 0x0201);
    assert_eq!(decode_u16(&[0x01, 0x02], true), 0x0102);
    assert_eq!(decode_u32(&[0x01, 0x02, 0x03, 0x04], false), 0x04030201);
    assert_eq!(decode_u32(&[0x01, 0x02, 0x03, 0x04], true), 0x01020304);
    assert_eq!(decode_i64(&[0xFF; 8], false), -1);
    assert_eq!(decode_i64(&[0x80, 0, 0, 0, 0, 0, 0, 0], true), i64::MIN);
    assert_eq!(decode_i64(&[0x80, 0, 0, 0, 0, 0, 0, 0], false), 0x80);
}

#[test]
fn byte_orders_mirror() {
    let b = [0x12, 0x34, 0x56, 0x78];
    assert_eq!(decode_u32(&b, true), decode_u32(&[0x78, 0x56, 0x34, 0x12], false));
    assert_eq!(decode_u16(&[0x12, 0x34], true), decode_u16(&[0x34, 0x12], false));
}

#[test]
fn section_type_reads_the_same_in_either_order() {
    let tag = [0x0A, 0x0D, 0x0D, 0x0A];
    assert_eq!(decode_u32(&tag, true), SECTION_BLOCK_TYPE);
    assert_eq!(decode_u32(&tag, false), SECTION_BLOCK_TYPE);
}

#[test]
fn cursor_reads_and_fails_at_end() {
    let mut c = ByteCursor::new(vec![1, 2, 3]);
    assert_eq!(c.read_exact(2).unwrap(), vec![1, 2]);
    assert_eq!(c.stream_position(), 2);
    assert_eq!(c.read_exact(2), Err(BlockError::UnexpectedEof));
    assert_eq!(c.stream_position(), 3);
    assert_eq!(c.remaining(), 0);
    let mut c = ByteCursor::new(vec![1, 2, 3, 4, 5]);
    let mut buf = vec![9];
    assert_eq!(c.read_to_end_limited(2, &mut buf), 2);
    assert_eq!(buf, vec![9, 1, 2]);
    assert_eq!(c.read_to_end_limited(10, &mut buf), 3);
    assert_eq!(buf, vec![9, 1, 2, 3, 4, 5]);
    assert_eq!(c.peek(4), Vec::<u8>::new());
}

#[test]
fn little_endian_section_frame() {
    let mut f = ByteCursor::new(le_section());
    assert!(RawBlock::from_file_completes(&f, None));
    let rb = RawBlock::from_file(&mut f, None).unwrap();
    assert_eq!(rb.filepos, 0);
    assert_eq!(rb.blktype, 0x0A0D0D0A);
    assert_eq!(rb.blklen, 32);
    assert_eq!(rb.endianness, Some(false));
    assert_eq!(rb.data, le_section()[12..].to_vec());
    assert_eq!(f.stream_position(), 32);
}

#[test]
fn big_endian_section_frame() {
    let mut f = ByteCursor::new(be_section());
    let rb = RawBlock::from_file(&mut f, None).unwrap();
    assert_eq!(rb.blktype, 0x0A0D0D0A);
    assert_eq!(rb.blklen, 32);
    assert_eq!(rb.endianness, Some(true));
    assert_eq!(rb.data.len(), 20);
    let sb = SectionBlock::try_from(rb).unwrap();
    assert_eq!(sb.major, 1);
    assert_eq!(sb.minor, 0);
    assert_eq!(sb.sectionlength, -2);
}

#[test]
fn section_block_fields_and_options() {
    let mut f = ByteCursor::new(le_section());
    let rb = RawBlock::from_file(&mut f, None).unwrap();
    assert!(SectionBlock::try_from_completes(&rb));
    let sb = SectionBlock::try_from(rb).unwrap();
    assert_eq!(sb.major, 1);
    assert_eq!(sb.minor, 0);
    assert_eq!(sb.sectionlength, -1);
    assert_eq!(sb.options.len(), 1);
    assert_eq!(sb.options[0].optcode, 0);
    assert_eq!(sb.options[0].optlen, 0);
    assert!(sb.iface.is_none());
    assert!(sb.packets.is_empty());
}

#[test]
fn section_without_end_of_options_does_not_complete() {
    // No end-of-options option: the closing length 0x1C reads as option code 0x1C.
    let bytes = vec![
        0x0A, 0x0D, 0x0D, 0x0A, 0x1C, 0x00, 0x00, 0x00, 0x4D, 0x3C, 0x2B, 0x1A, 0x01, 0x00, 0x00, 0x00,
        0xFF, 0xFF, 0xFF, 0xFF, 0xFF, 0xFF, 0xFF, 0xFF, 0x1C, 0x00, 0x00, 0x00,
    ];
    let mut f = ByteCursor::new(bytes);
    let rb = RawBlock::from_file(&mut f, None).unwrap();
    assert!(!SectionBlock::try_from_completes(&rb));
}

#[test]
fn section_too_short() {
    let rb = RawBlock { filepos: 0, blktype: 0x0A0D0D0A, blklen: 16, endianness: Some(false), data: vec![1, 0, 0, 0] };
    assert!(SectionBlock::try_from_completes(&rb));
    assert_eq!(SectionBlock::try_from(rb).unwrap_err(), BlockError::UnexpectedEof);
}

#[test]
fn block_after_section_records_no_byte_order() {
    let mut bytes = le_section();
    bytes.extend(le_interface());
    let mut f = ByteCursor::new(bytes);
    let first = RawBlock::from_file(&mut f, None).unwrap();
    let next = RawBlock::from_file(&mut f, first.endianness).unwrap();
    assert_eq!(next.filepos, 32);
    assert_eq!(next.blktype, 1);
    assert_eq!(next.blklen, 0x24);
    assert_eq!(next.endianness, None);
    assert_eq!(next.data.len(), 0x24 - 8);
    assert_eq!(f.stream_position(), 32 + 0x24);
}

#[test]
fn interface_block_fields_and_options() {
    let mut f = ByteCursor::new(le_interface());
    let rb = RawBlock::from_file(&mut f, Some(false)).unwrap();
    assert!(InterfaceBlock::try_from_completes(&rb));
    let ib = InterfaceBlock::try_from(rb).unwrap();
    assert_eq!(ib.linktype, 1);
    assert_eq!(ib.reserved, 0);
    assert_eq!(ib.snaplen, 65535);
    assert_eq!(ib.options.len(), 2);
    assert_eq!(ib.options[0].optcode, 2);
    assert_eq!(ib.options[0].optlen, 3);
    assert_eq!(ib.options[0].optval, b"abc".to_vec());
    assert_eq!(ib.options[1].optcode, 0);
}

#[test]
fn interface_block_too_short() {
    let rb = RawBlock { filepos: 0, blktype: 1, blklen: 12, endianness: None, data: vec![1, 0, 0, 0] };
    assert!(InterfaceBlock::try_from_completes(&rb));
    assert_eq!(InterfaceBlock::try_from(rb).unwrap_err(), BlockError::UnexpectedEof);
}

#[test]
fn interface_stat_block_reads_and_fails() {
    let good = RawBlock {
        filepos: 0,
        blktype: 5,
        blklen: 28,
        endianness: None,
        data: vec![3, 0, 0, 0, 1, 0, 0, 0, 2, 0, 0, 0, 0, 0, 0, 0],
    };
    let sb = InterfaceStatBlock::try_from(good).unwrap();
    assert_eq!(sb.interfaceid, 3);
    assert_eq!(sb.timestamp_high, 1);
    assert_eq!(sb.timestamp_low, 2);
    assert_eq!(sb.options.len(), 1);
    let unterminated = RawBlock {
        filepos: 0,
        blktype: 5,
        blklen: 28,
        endianness: None,
        data: vec![3, 0, 0, 0, 1, 0, 0, 0, 2, 0, 0, 0, 9, 0, 0, 0],
    };
    assert_eq!(InterfaceStatBlock::try_from(unterminated).unwrap_err(), BlockError::UnexpectedEof);
    let short = RawBlock { filepos: 0, blktype: 5, blklen: 28, endianness: None, data: vec![3, 0, 0, 0] };
    assert_eq!(InterfaceStatBlock::try_from(short).unwrap_err(), BlockError::UnexpectedEof);
}

#[test]
fn packet_block_fields_and_padding() {
    let mut f = ByteCursor::new(le_packet());
    let rb = RawBlock::from_file(&mut f, Some(false)).unwrap();
    assert!(PacketBlock::try_from_completes(&rb));
    let pb = PacketBlock::try_from(rb).unwrap();
    assert_eq!(pb.interfaceid, 0);
    assert_eq!(pb.timestamp_high, 1);
    assert_eq!(pb.timestamp_low, 2);
    assert_eq!(pb.cap_packet_len, 5);
    assert_eq!(pb.orig_packet_len, 5);
    // five bytes plus 5 % 4 = 1 byte of padding
    assert_eq!(pb.data, b"hello\0".to_vec());
    assert!(pb.options.is_empty());
}

#[test]
fn packet_block_with_trailing_options_does_not_complete() {
    let mut body = vec![0, 0, 0, 0, 1, 0, 0, 0, 2, 0, 0, 0, 4, 0, 0, 0, 4, 0, 0, 0];
    body.extend(b"abcd");
    body.extend([1, 0, 1, 0, b'x', 0, 0, 0, 0, 0, 0, 0, 40, 0, 0, 0]);
    let rb = RawBlock { filepos: 0, blktype: 6, blklen: 48, endianness: None, data: body };
    assert!(!PacketBlock::try_from_completes(&rb));
    let short = RawBlock { filepos: 0, blktype: 6, blklen: 48, endianness: None, data: vec![0; 10] };
    assert!(PacketBlock::try_from_completes(&short));
    assert_eq!(PacketBlock::try_from(short).unwrap_err(), BlockError::UnexpectedEof);
}

#[test]
fn raw_block_errors_and_incomplete_frames() {
    let mut f = ByteCursor::new(vec![1, 0, 0, 0, 8]);
    assert!(RawBlock::from_file_completes(&f, Some(false)));
    assert_eq!(RawBlock::from_file(&mut f, Some(false)).unwrap_err(), BlockError::UnexpectedEof);
    assert_eq!(f.stream_position(), 5);
    // a section expected, none found
    let f = ByteCursor::new(vec![1, 0, 0, 0, 8, 0, 0, 0]);
    assert!(!RawBlock::from_file_completes(&f, None));
    // a declared length shorter than the frame
    let f = ByteCursor::new(vec![1, 0, 0, 0, 4, 0, 0, 0]);
    assert!(!RawBlock::from_file_completes(&f, Some(false)));
    // a section frame cut short before its magic
    let mut f = ByteCursor::new(vec![0x0A, 0x0D, 0x0D, 0x0A, 12, 0, 0, 0, 0x4D]);
    assert!(RawBlock::from_file_completes(&f, None));
    assert_eq!(RawBlock::from_file(&mut f, None).unwrap_err(), BlockError::UnexpectedEof);
}

#[test]
fn raw_block_body_is_cut_at_end_of_file() {
    let mut f = ByteCursor::new(vec![7, 0, 0, 0, 100, 0, 0, 0, 1, 2, 3]);
    let rb = RawBlock::from_file(&mut f, Some(false)).unwrap();
    assert_eq!(rb.blklen, 100);
    assert_eq!(rb.data, vec![1, 2, 3]);
    assert_eq!(f.stream_position(), 11);
}

#[test]
fn complete_block_ignores_following_bytes() {
    let mut with_more = le_packet();
    with_more.extend([0xAA, 0xBB, 0xCC]);
    let mut a = ByteCursor::new(le_packet());
    let mut b = ByteCursor::new(with_more);
    let ra = RawBlock::from_file(&mut a, Some(false)).unwrap();
    let rb = RawBlock::from_file(&mut b, Some(false)).unwrap();
    assert_eq!(ra.data, rb.data);
    assert_eq!(ra.blklen, rb.blklen);
    assert_eq!(a.stream_position(), b.stream_position());
    assert_eq!(b.stream_position(), 0x26);
}

#[test]
fn read_option_and_end_of_options() {
    let mut c = ByteCursor::new(vec![0, 2, 0, 5, b'h', b'i']);
    let mut o = OptionValue::default();
    o.optval.push(b'>');
    assert_eq!(o.read_option(&mut c, true), Ok(2));
    assert_eq!(o.optcode, 2);
    assert_eq!(o.optlen, 5);
    assert_eq!(o.optval, b">hi".to_vec());
    assert_eq!(c.stream_position(), 6);

    let mut c = ByteCursor::new(vec![0, 0, 9, 0, 1, 2]);
    let mut o = OptionValue::default();
    assert_eq!(o.read_option(&mut c, false), Ok(0));
    assert_eq!(o.optlen, 9);
    assert!(o.optval.is_empty());
    assert_eq!(c.stream_position(), 4);

    let mut c = ByteCursor::new(vec![3, 0, 1]);
    let mut o = OptionValue::default();
    assert_eq!(o.read_option(&mut c, false), Err(BlockError::UnexpectedEof));
    assert_eq!(o.optcode, 3);
    assert_eq!(c.stream_position(), 3);
}

#[test]
fn option_list_ends_with_end_marker_and_ignores_trailing_bytes() {
    let list = vec![1, 0, 1, 0, b'z', 4, 0, 0, 0, 0, 0, 0, 0];
    let mut a = ByteCursor::new(list.clone());
    let mut oa = Vec::new();
    assert!(read_options(&mut a, false, &mut oa).is_ok());
    let mut with_more = list.clone();
    with_more.extend([7, 7, 7, 7, 7]);
    let mut b = ByteCursor::new(with_more);
    let mut ob = Vec::new();
    assert!(read_options(&mut b, false, &mut ob).is_ok());
    assert_eq!(oa.len(), 3);
    assert_eq!(ob.len(), 3);
    assert_eq!(oa.last().unwrap().optcode, 0);
    assert!(oa[..2].iter().all(|o| o.optcode != 0));
    for (x, y) in oa.iter().zip(ob.iter()) {
        assert_eq!(x.optcode, y.optcode);
        assert_eq!(x.optlen, y.optlen);
        assert_eq!(x.optval, y.optval);
    }
    assert_eq!(a.stream_position(), 13);
    assert_eq!(b.stream_position(), 13);
}

#[test]
fn header_reads_section_and_other_frames() {
    let mut f = ByteCursor::new(le_section());
    let h = Header::new(&mut f).unwrap();
    assert!(h.is_section());
    assert!(h.little_endian);
    assert_eq!(h.blktype, SECTION_BLOCK_TYPE);
    assert_eq!(h.len, 32);
    assert_eq!(h.magicbytes, [0x4D, 0x3C, 0x2B, 0x1A]);
    assert_eq!(f.stream_position(), 12);

    let mut f = ByteCursor::new(be_section());
    let h = Header::new(&mut f).unwrap();
    assert!(!h.little_endian);
    assert_eq!(h.blktype, SECTION_BLOCK_TYPE);
    assert_eq!(h.len, 32);

    let mut f = ByteCursor::new(le_packet());
    let h = Header::new(&mut f).unwrap();
    assert!(!h.is_section());
    assert!(h.little_endian);
    assert_eq!(h.blktype, 6);
    assert_eq!(h.magicbytes, [0, 0, 0, 0]);
    assert_eq!(f.stream_position(), 8);

    let mut f = ByteCursor::new(vec![0x0A, 0x0D, 0x0D, 0x0A, 0, 0, 0, 0]);
    assert_eq!(Header::new(&mut f).unwrap_err(), BlockError::UnexpectedEof);
    let mut f = ByteCursor::new(vec![1, 2, 3]);
    assert_eq!(Header::new(&mut f).unwrap_err(), BlockError::UnexpectedEof);
}

#[test]
fn header_and_raw_block_agree_on_sections() {
    for bytes in [le_section(), be_section()] {
        let mut a = ByteCursor::new(bytes.clone());
        let mut b = ByteCursor::new(bytes);
        let h = Header::new(&mut a).unwrap();
        let rb = RawBlock::from_file(&mut b, None).unwrap();
        assert_eq!(h.blktype, rb.blktype);
        assert_eq!(h.len, rb.blklen);
        assert_eq!(Some(!h.little_endian), rb.endianness);
    }
}

#[test]
fn framed_block_reads_rest_of_block() {
    let mut f = ByteCursor::new(le_section());
    let h = Header::new(&mut f).unwrap();
    let b = FramedBlock::new(h, &mut f).unwrap();
    assert_eq!(b.data, le_section()[12..].to_vec());
    assert_eq!(f.stream_position(), 32);
    assert_eq!(
        b.to_string(),
        format!(
            "Header Pos = 0 type = 0xa0d0d0a , len = 20, section = true, little_endian = true , magic = (4d,3c,2b,1a) Data {}",
            String::from_utf8_lossy(&le_section()[12..])
        )
    );
}

#[test]
fn header_listing_for_other_blocks() {
    let mut f = ByteCursor::new(le_packet());
    let h = Header::new(&mut f).unwrap();
    assert_eq!(h.to_string(), "Pos = 0 type = 0x6 , len = 38, section = false, little_endian = true ");
}

#[test]
fn number_renderings() {
    let mut s = String::new();
    push_hex_field(&mut s, 0);
    s.push('|');
    push_hex_field(&mut s, 0x0A0D0D0A);
    s.push('|');
    push_hex_field(&mut s, 0xFFFF_FFFF);
    s.push('|');
    push_dec(&mut s, 1234567890123);
    s.push('|');
    push_hex(&mut s, 0xBEEF);
    s.push('|');
    push_signed(&mut s, -42);
    s.push('|');
    push_signed(&mut s, i64::MIN);
    assert_eq!(s, "0x00000000|0x0a0d0d0a|0xffffffff|1234567890123|beef|-42|-9223372036854775808");
}

#[test]
fn option_and_raw_block_listings() {
    let o = OptionValue { optcode: 2, optlen: 3, optval: b"abc".to_vec() };
    assert_eq!(o.to_string(), "0x00000002 (3 bytes) abc");
    let bad = OptionValue { optcode: 1, optlen: 2, optval: vec![b'a', 0xFF] };
    assert_eq!(bad.to_string(), "0x00000001 (2 bytes) a\u{FFFD}");
    let rb = RawBlock { filepos: 64, blktype: 6, blklen: 12, endianness: None, data: b"ok".to_vec() };
    assert_eq!(rb.to_string(), "0x00000006 (64 for 12 bytes) ok");
}

#[test]
fn block_listings() {
    let mut f = ByteCursor::new(le_interface());
    let ib = InterfaceBlock::try_from(RawBlock::from_file(&mut f, Some(false)).unwrap()).unwrap();
    assert_eq!(
        ib.to_string(),
        "0x00000001 (0 for 36 bytes) (v1.0) max packet size = 65535\n\t0x00000002 (3 bytes) abc\n\t0x00000000 (0 bytes) \n"
    );
    let stat = InterfaceStatBlock::try_from(RawBlock {
        filepos: 8,
        blktype: 5,
        blklen: 28,
        endianness: None,
        data: vec![3, 0, 0, 0, 1, 0, 0, 0, 2, 0, 0, 0, 0, 0, 0, 0],
    })
    .unwrap();
    assert_eq!(stat.to_string(), "0x00000005 (8 for 28 bytes) iface=3 (1.2)\n\t0x00000000 (0 bytes) \n");
    let mut f = ByteCursor::new(le_packet());
    let pb = PacketBlock::try_from(RawBlock::from_file(&mut f, Some(false)).unwrap()).unwrap();
    assert_eq!(pb.to_string(), "0x00000006 (0 for 38 bytes) iface=0 (1.2) packet size = 5 (of 5)\nhello\0\n");
}

#[test]
fn section_listing() {
    let mut f = ByteCursor::new(le_section());
    let mut sb = SectionBlock::try_from(RawBlock::from_file(&mut f, None).unwrap()).unwrap();
    let mut g = ByteCursor::new(le_interface());
    sb.iface = Some(InterfaceBlock::try_from(RawBlock::from_file(&mut g, Some(false)).unwrap()).unwrap());
    let mut p = ByteCursor::new(le_packet());
    sb.packets.push(PacketBlock::try_from(RawBlock::from_file(&mut p, Some(false)).unwrap()).unwrap());
    let expected = format!(
        "--------------Section--------------\n0x0a0d0d0a (0 for 32 bytes) (v1.0) optionlen = -1\n\t0x00000000 (0 bytes) \n{}\n{}\n--------------End Section--------------\n",
        sb.iface.as_ref().unwrap().to_string(),
        sb.packets[0].to_string()
    );
    assert_eq!(sb.to_string(), expected);
}

#[test]
fn renderings_match_std_formatting() {
    for n in [0u32, 1, 9, 10, 15, 16, 255, 0x0A0D0D0A, 0x1234_5678, u32::MAX] {
        let mut s = String::new();
        push_hex_field(&mut s, n as u64);
        assert_eq!(s, format!("{:#010x?}", n));
        let mut s = String::new();
        push_hex(&mut s, n as u64);
        assert_eq!(s, format!("{:x}", n));
        let mut s = String::new();
        push_dec(&mut s, n as u64);
        assert_eq!(s, format!("{}", n));
    }
    for v in [0i64, 7, -7, i64::MAX, i64::MIN] {
        let mut s = String::new();
        push_signed(&mut s, v);
        assert_eq!(s, format!("{}", v));
    }
}
