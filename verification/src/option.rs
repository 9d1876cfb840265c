//! Block options: a code, a length and a value, repeated until the
//! end-of-options code 0.
use vstd::prelude::*;
use crate::cursor::ByteCursor;
use crate::endian::u16_from;
use crate::error::BlockError;
use crate::text::{dec_text, ends_with, hex_field, lemma_parts, push_dec, push_hex_field, push_lossy, shows, starts_with, utf8_lossy};

verus! {

/// The meaning of one option: its code, its declared length and the value
/// bytes that were read for it.
pub struct OptionSpec {
    pub code: u16,
    pub len: u16,
    pub val: Seq<u8>,
}

/// One option as read from a block.
#[derive(Debug)]
pub struct OptionValue {
    pub optcode: u16,
    pub optlen: u16,
    pub optval: Vec<u8>,
}

impl View for OptionValue {
    type V = OptionSpec;

    open spec fn view(&self) -> OptionSpec {
        OptionSpec { code: self.optcode, len: self.optlen, val: self.optval@ }
    }
}

/// The meanings of a sequence of options.
pub open spec fn option_views(v: Seq<OptionValue>) -> Seq<OptionSpec> {
    v.map_values(|o: OptionValue| o@)
}

/// The smaller of two naturals.
pub open spec fn min_nat(a: nat, b: nat) -> nat {
    if a < b { a } else { b }
}

/// Reads one option from the start of `s`: two bytes of code, two bytes of
/// declared length, then, unless the code is 0, up to that many value bytes
/// (fewer where `s` ends first). The value is not padded to a multiple of four.
/// Gives the option and the number of bytes it takes, or `None` when `s` holds
/// fewer than four bytes.
pub open spec fn parse_option(s: Seq<u8>, big: bool) -> Option<(OptionSpec, nat)> {
    if s.len() < 4 {
        None
    } else {
        let code = u16_from(s, big);
        let len = u16_from(s.skip(2), big);
        if code == 0 {
            Some((OptionSpec { code, len, val: Seq::empty() }, 4nat))
        } else {
            let n = min_nat(len as nat, (s.len() - 4) as nat);
            Some((OptionSpec { code, len, val: s.subrange(4, 4 + n as int) }, (4 + n) as nat))
        }
    }
}

/// One option, byte by byte: the code is bytes 0 and 1 and the declared
/// length bytes 2 and 3, in the given order; the value is the bytes from 4 on,
/// as many as declared or as there are, and none for code 0; the option takes
/// four bytes plus its value.
pub proof fn lemma_option_in_bytes(s: Seq<u8>, big: bool)
    ensures
        parse_option(s, big) is Some <==> s.len() >= 4,
        s.len() >= 4 ==> {
            let (o, n) = parse_option(s, big).unwrap();
            &&& o.code == (if big { s[0] * 0x100 + s[1] } else { s[1] * 0x100 + s[0] })
            &&& o.len == (if big { s[2] * 0x100 + s[3] } else { s[3] * 0x100 + s[2] })
            &&& o.code == 0 ==> o.val.len() == 0
            &&& o.code != 0 ==> o.val == s.subrange(4, if 4 + o.len <= s.len() { 4 + o.len } else { s.len() as int })
            &&& n == 4 + o.val.len()
        },
{
}

/// Reading an option list reads one option, then, unless it was the
/// end-of-options option, the list after it.
pub proof fn lemma_options_step(s: Seq<u8>, big: bool)
    ensures
        s.len() >= 4 ==> ({
            let (o, n) = parse_option(s, big).unwrap();
            let r = scan_options(s.skip(n as int), big);
            if o.code == 0 {
                scan_options(s, big) == (seq![o], true, n)
            } else {
                scan_options(s, big) == (seq![o] + r.0, r.1, n + r.2)
            }
        }),
        s.len() < 4 ==> scan_options(s, big) == (Seq::<OptionSpec>::empty(), false, 0nat),
{
}

/// Reads options from the start of `s` until one with code 0 has been read.
/// Gives the options read (the closing one included), whether a closing
/// option was reached before `s` ran out, and the bytes taken up to and
/// including it.
pub open spec fn scan_options(s: Seq<u8>, big: bool) -> (Seq<OptionSpec>, bool, nat)
    decreases s.len(),
{
    match parse_option(s, big) {
        None => (Seq::empty(), false, 0nat),
        Some((o, n)) => {
            if o.code == 0 {
                (seq![o], true, n)
            } else {
                let r = scan_options(s.skip(n as int), big);
                (seq![o] + r.0, r.1, n + r.2)
            }
        },
    }
}

/// A completed option list is not empty, its last option is the
/// end-of-options option (code 0), no other option has code 0, no value is
/// longer than its declared length, and it takes at least four bytes per
/// option and no more than the input holds.
pub proof fn lemma_options_end_with_end_marker(s: Seq<u8>, big: bool)
    requires
        scan_options(s, big).1,
    ensures
        scan_options(s, big).0.len() > 0,
        scan_options(s, big).0.last().code == 0,
        forall|i: int| 0 <= i < scan_options(s, big).0.len() - 1 ==> #[trigger] scan_options(s, big).0[i].code != 0,
        forall|i: int| 0 <= i < scan_options(s, big).0.len() ==>
            #[trigger] scan_options(s, big).0[i].val.len() <= scan_options(s, big).0[i].len,
        4 * scan_options(s, big).0.len() <= scan_options(s, big).2 <= s.len(),
    decreases s.len(),
{
    let (o, n) = parse_option(s, big).unwrap();
    if o.code != 0 {
        let t = s.skip(n as int);
        lemma_options_end_with_end_marker(t, big);
        let r = scan_options(t, big).0;
        assert(scan_options(s, big).0 == seq![o] + r);
        assert forall|i: int| 0 <= i < scan_options(s, big).0.len() - 1 implies #[trigger] scan_options(s, big).0[i].code != 0 by {
            if i > 0 {
                assert(scan_options(s, big).0[i] == r[i - 1]);
            }
        }
        assert forall|i: int| 0 <= i < scan_options(s, big).0.len() implies
            #[trigger] scan_options(s, big).0[i].val.len() <= scan_options(s, big).0[i].len by {
            if i > 0 {
                assert(scan_options(s, big).0[i] == r[i - 1]);
            }
        }
    }
}

/// Bytes after a completed option list do not change how it reads.
pub proof fn lemma_options_ignore_trailing_bytes(s: Seq<u8>, extra: Seq<u8>, big: bool)
    requires
        scan_options(s, big).1,
    ensures
        scan_options(s + extra, big) == scan_options(s, big),
    decreases s.len(),
{
    let (o, n) = parse_option(s, big).unwrap();
    let se = s + extra;
    assert(se.skip(2)[0] == s.skip(2)[0] && se.skip(2)[1] == s.skip(2)[1]);
    assert(parse_option(se, big).unwrap().0.code == o.code);
    if o.code == 0 {
        assert(parse_option(se, big) == parse_option(s, big));
    } else {
        lemma_options_end_with_end_marker(s, big);
        lemma_options_end_with_end_marker(s.skip(n as int), big);
        assert(n <= s.len());
        let len = o.len;
        // The value ends inside `s`: otherwise nothing would follow it to close the list.
        assert(4 + (len as nat) <= s.len()) by {
            if 4 + (len as nat) > s.len() {
                assert(s.skip(n as int).len() == 0);
            }
        }
        assert(se.subrange(4, 4 + len as int) =~= s.subrange(4, 4 + len as int));
        assert(parse_option(se, big) == parse_option(s, big));
        assert(se.skip(n as int) =~= s.skip(n as int) + extra);
        lemma_options_ignore_trailing_bytes(s.skip(n as int), extra, big);
    }
}

/// The listing of one option: code as a padded hexadecimal field, declared
/// length, and the value as text.
pub open spec fn option_text(o: OptionSpec) -> Seq<char> {
    hex_field(o.code as nat) + " ("@ + dec_text(o.len as nat) + " bytes) "@ + utf8_lossy(o.val)
}

/// The listing of a sequence of options: one line each, indented by a tab.
pub open spec fn option_lines(os: Seq<OptionSpec>) -> Seq<char>
    decreases os.len(),
{
    if os.len() == 0 {
        Seq::empty()
    } else {
        option_lines(os.drop_last()) + "\t"@ + option_text(os.last()) + "\n"@
    }
}

/// The listing of an option starts with its code as a padded hexadecimal
/// field, shows its declared length followed by ` bytes) `, and ends with its
/// value as text.
pub proof fn lemma_option_listing(o: OptionSpec)
    ensures
        starts_with(option_text(o), hex_field(o.code as nat) + " ("@),
        shows(option_text(o), " ("@ + dec_text(o.len as nat) + " bytes) "@),
        ends_with(option_text(o), " bytes) "@ + utf8_lossy(o.val)),
{
    let a = hex_field(o.code as nat);
    let d = dec_text(o.len as nat);
    let v = utf8_lossy(o.val);
    assert(option_text(o) =~= (a + " ("@) + (d + " bytes) "@) + v);
    lemma_parts(a + " ("@, d + " bytes) "@, v);
    assert(option_text(o) =~= a + (" ("@ + d + " bytes) "@) + v);
    lemma_parts(a, " ("@ + d + " bytes) "@, v);
    assert(option_text(o) =~= (a + " ("@ + d) + Seq::<char>::empty() + (" bytes) "@ + v));
    lemma_parts(a + " ("@ + d, Seq::<char>::empty(), " bytes) "@ + v);
}

/// Adding an option adds one tab-indented line with its listing at the end,
/// leaving the lines before it as they were.
pub proof fn lemma_option_lines_push(os: Seq<OptionSpec>, o: OptionSpec)
    ensures
        option_lines(os.push(o)) == option_lines(os) + "\t"@ + option_text(o) + "\n"@,
        option_lines(Seq::<OptionSpec>::empty()) == Seq::<char>::empty(),
{
    assert(os.push(o).drop_last() =~= os);
}

/// Appends the listing of `options`, one tab-indented line each.
pub fn push_option_lines(out: &mut String, options: &Vec<OptionValue>)
    ensures
        final(out)@ == old(out)@ + option_lines(option_views(options@)),
{
    let ghost base = out@;
    let mut i: usize = 0;
    assert(option_views(options@.take(0)) =~= Seq::<OptionSpec>::empty());
    assert(out@ =~= base + option_lines(option_views(options@.take(0))));
    while i < options.len()
        invariant
            i <= options@.len(),
            base == old(out)@,
            out@ == base + option_lines(option_views(options@.take(i as int))),
        decreases options@.len() - i,
    {
        out.append("\t");
        let t = options[i].to_string();
        out.append(t.as_str());
        out.append("\n");
        let ghost vs = option_views(options@.take(i + 1));
        assert(vs.drop_last() =~= option_views(options@.take(i as int)));
        assert(vs.last() == options@[i as int]@);
        assert(out@ =~= base + option_lines(vs));
        i = i + 1;
    }
    assert(options@.take(options@.len() as int) =~= options@);
}

impl OptionValue {
    /// The listing of this option: code as a padded hexadecimal field,
    /// declared length, and the value as text.
    pub fn to_string(&self) -> (s: String)
        ensures
            s@ == option_text(self@),
    {
        let mut s = String::new();
        push_hex_field(&mut s, self.optcode as u64);
        s.append(" (");
        push_dec(&mut s, self.optlen as u64);
        s.append(" bytes) ");
        push_lossy(&mut s, self.optval.as_slice());
        assert(s@ =~= option_text(self@));
        s
    }

    /// An empty option: code 0, length 0, no value.
    pub fn default() -> (o: OptionValue)
        ensures
            o.optcode == 0,
            o.optlen == 0,
            o.optval@ == Seq::<u8>::empty(),
    {
        OptionValue { optcode: 0, optlen: 0, optval: Vec::new() }
    }

    /// Reads one option from `c` into `self` and returns its code. The code
    /// and length replace those of `self`; the value bytes are appended to
    /// `self.optval`. Fails when fewer than four bytes are left, after setting
    /// the code if two bytes were there.
    pub fn read_option(&mut self, c: &mut ByteCursor, big: bool) -> (r: Result<u16, BlockError>)
        ensures
            final(c).contents() == old(c).contents(),
            match parse_option(old(c).rest(), big) {
                Some((o, n)) => {
                    &&& r == Ok::<u16, BlockError>(o.code)
                    &&& final(self).optcode == o.code
                    &&& final(self).optlen == o.len
                    &&& final(self).optval@ == old(self).optval@ + o.val
                    &&& final(c).position() == old(c).position() + n
                    &&& final(c).rest() == old(c).rest().skip(n as int)
                },
                None => {
                    &&& r == Err::<u16, BlockError>(BlockError::UnexpectedEof)
                    &&& final(self).optcode == (if old(c).rest().len() >= 2 {
                        u16_from(old(c).rest(), big)
                    } else {
                        old(self).optcode
                    })
                    &&& final(self).optlen == old(self).optlen
                    &&& final(self).optval@ == old(self).optval@
                    &&& final(c).position() == old(c).contents().len()
                    &&& final(c).rest() == Seq::<u8>::empty()
                },
            },
    {
        let ghost s = c.rest();
        self.optcode = c.read_u16(big)?;
        self.optlen = c.read_u16(big)?;
        assert(s.skip(2).skip(2) =~= s.skip(4));
        if self.optcode != 0 {
            let ghost mid = c.rest();
            c.read_to_end_limited(self.optlen as u64, &mut self.optval);
            assert(mid.take(min_nat(self.optlen as nat, mid.len()) as int) =~= s.subrange(
                4,
                4 + min_nat(self.optlen as nat, (s.len() - 4) as nat) as int,
            ));
            assert(mid.skip(min_nat(self.optlen as nat, mid.len()) as int) =~= s.skip(
                4 + min_nat(self.optlen as nat, (s.len() - 4) as nat) as int,
            ));
        } else {
            assert(self.optval@ =~= old(self).optval@ + Seq::<u8>::empty());
        }
        Ok(self.optcode)
    }
}

/// Reads options from `source` into `options` until one with code 0 has been
/// read; each option read is appended, the closing one included. Fails when the
/// bytes run out first; the options read up to then are still appended.
pub fn read_options(source: &mut ByteCursor, big: bool, options: &mut Vec<OptionValue>) -> (r: Result<(), BlockError>)
    ensures
        final(source).contents() == old(source).contents(),
        option_views(final(options)@) == option_views(old(options)@) + scan_options(old(source).rest(), big).0,
        r is Ok <==> scan_options(old(source).rest(), big).1,
        r is Ok ==> {
            &&& final(source).position() == old(source).position() + scan_options(old(source).rest(), big).2
            &&& final(source).rest() == old(source).rest().skip(scan_options(old(source).rest(), big).2 as int)
        },
        r is Err ==> {
            &&& r == Err::<(), BlockError>(BlockError::UnexpectedEof)
            &&& final(source).position() == old(source).contents().len()
            &&& final(source).rest() == Seq::<u8>::empty()
        },
{
    let ghost s0 = source.rest();
    let ghost pos0 = source.position();
    let ghost opts0 = option_views(options@);
    let ghost mut pushed: Seq<OptionSpec> = Seq::empty();
    let ghost mut consumed: nat = 0;
    assert(s0.skip(0) =~= s0);
    loop
        invariant_except_break
            source.contents() == old(source).contents(),
            source.rest() == s0.skip(consumed as int),
            consumed <= s0.len(),
            source.position() == pos0 + consumed,
            option_views(options@) == opts0 + pushed,
            opts0 == option_views(old(options)@),
            s0 == old(source).rest(),
            pos0 == old(source).position(),
            scan_options(s0, big).0 == pushed + scan_options(source.rest(), big).0,
            scan_options(s0, big).1 == scan_options(source.rest(), big).1,
            scan_options(s0, big).2 == consumed + scan_options(source.rest(), big).2,
        ensures
            source.contents() == old(source).contents(),
            option_views(options@) == opts0 + scan_options(s0, big).0,
            scan_options(s0, big).1,
            source.position() == pos0 + scan_options(s0, big).2,
            source.rest() == s0.skip(scan_options(s0, big).2 as int),
        decreases source.rest().len(),
    {
        let ghost cur = source.rest();
        let mut o = OptionValue::default();
        let res = o.read_option(source, big);
        match res {
            Err(e) => {
                assert(parse_option(cur, big) is None);
                assert(scan_options(cur, big).0 =~= Seq::<OptionSpec>::empty());
                assert(!scan_options(cur, big).1);
                assert(option_views(options@) =~= opts0 + scan_options(s0, big).0);
                return Err(e);
            },
            Ok(code) => {
                let ghost n = parse_option(cur, big).unwrap().1;
                assert(o@.val =~= parse_option(cur, big).unwrap().0.val);
                let ghost ov = o@;
                let ghost before = options@;
                options.push(o);
                assert(option_views(options@) =~= option_views(before).push(ov));
                assert(option_views(options@) =~= opts0 + pushed.push(ov));
                assert(cur.skip(n as int) =~= s0.skip((consumed + n) as int));
                proof {
                    pushed = pushed.push(ov);
                    consumed = consumed + n;
                }
                if code == 0 {
                    assert(scan_options(s0, big).0 =~= pushed);
                    break;
                }
                assert(scan_options(cur, big).0 =~= seq![ov] + scan_options(source.rest(), big).0);
            },
        }
    }
    Ok(())
}

} // verus!
