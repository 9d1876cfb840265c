//! Text renderings of numbers and bytes, as the block listings show them.
use vstd::prelude::*;

verus! {

/// The digits of bases up to sixteen, lower case.
pub open spec fn digit_chars() -> Seq<char> {
    seq!['0', '1', '2', '3', '4', '5', '6', '7', '8', '9', 'a', 'b', 'c', 'd', 'e', 'f']
}

/// `n` in decimal, without sign or leading zeros.
pub open spec fn dec_text(n: nat) -> Seq<char>
    decreases n,
{
    if n < 10 {
        seq![digit_chars()[n as int]]
    } else {
        dec_text(n / 10) + seq![digit_chars()[(n % 10) as int]]
    }
}

/// `n` in lower-case hexadecimal, without prefix or leading zeros.
pub open spec fn hex_text(n: nat) -> Seq<char>
    decreases n,
{
    if n < 16 {
        seq![digit_chars()[n as int]]
    } else {
        hex_text(n / 16) + seq![digit_chars()[(n % 16) as int]]
    }
}

/// The value of a digit character: `0`-`9` are 0 to 9, `a`-`f` are 10 to
/// 15, anything else is -1.
pub open spec fn digit_value(c: char) -> int {
    let k = c as u32 as int;
    if 48 <= k <= 57 {
        k - 48
    } else if 97 <= k <= 102 {
        k - 87
    } else {
        -1
    }
}

/// Every character of `t` is a digit below `base`.
pub open spec fn all_digits(t: Seq<char>, base: int) -> bool {
    forall|i: int| 0 <= i < t.len() ==> 0 <= #[trigger] digit_value(t[i]) < base
}

/// The number the digits `t` write in `base`, most significant first.
pub open spec fn text_value(t: Seq<char>, base: int) -> int
    decreases t.len(),
{
    if t.len() == 0 {
        0
    } else {
        text_value(t.drop_last(), base) * base + digit_value(t.last())
    }
}

/// Each of the sixteen digit characters has its own value.
pub proof fn lemma_digit_value(k: int)
    requires
        0 <= k < 16,
    ensures
        digit_value(digit_chars()[k]) == k,
{
    if k == 0 { assert(digit_chars()[0] == '0'); }
    else if k == 1 { assert(digit_chars()[1] == '1'); }
    else if k == 2 { assert(digit_chars()[2] == '2'); }
    else if k == 3 { assert(digit_chars()[3] == '3'); }
    else if k == 4 { assert(digit_chars()[4] == '4'); }
    else if k == 5 { assert(digit_chars()[5] == '5'); }
    else if k == 6 { assert(digit_chars()[6] == '6'); }
    else if k == 7 { assert(digit_chars()[7] == '7'); }
    else if k == 8 { assert(digit_chars()[8] == '8'); }
    else if k == 9 { assert(digit_chars()[9] == '9'); }
    else if k == 10 { assert(digit_chars()[10] == 'a'); }
    else if k == 11 { assert(digit_chars()[11] == 'b'); }
    else if k == 12 { assert(digit_chars()[12] == 'c'); }
    else if k == 13 { assert(digit_chars()[13] == 'd'); }
    else if k == 14 { assert(digit_chars()[14] == 'e'); }
    else { assert(digit_chars()[15] == 'f'); }
}

/// The decimal text of `n` is digits 0 to 9 that write `n`, with no
/// leading zero unless `n` is 0.
pub proof fn lemma_dec_text(n: nat)
    ensures
        dec_text(n).len() >= 1,
        all_digits(dec_text(n), 10),
        text_value(dec_text(n), 10) == n,
        digit_value(dec_text(n)[0]) == 0 ==> n == 0,
    decreases n,
{
    lemma_digit_value((n % 10) as int);
    if n >= 10 {
        lemma_dec_text(n / 10);
        let t = dec_text(n);
        assert(t.drop_last() =~= dec_text(n / 10));
        assert(t.last() == digit_chars()[(n % 10) as int]);
        assert(text_value(t, 10) == text_value(t.drop_last(), 10) * 10 + digit_value(t.last()));
        assert(n == (n / 10) * 10 + n % 10);
        assert(t[0] == dec_text(n / 10)[0]);
        assert forall|i: int| 0 <= i < t.len() implies 0 <= #[trigger] digit_value(t[i]) < 10 by {
            if i < t.len() - 1 {
                assert(t[i] == dec_text(n / 10)[i]);
            }
        }
    } else {
        let t = dec_text(n);
        assert(t.drop_last() =~= Seq::<char>::empty());
        assert(text_value(t, 10) == text_value(t.drop_last(), 10) * 10 + digit_value(t.last()));
    }
}

/// The hexadecimal text of `n` is digits 0 to f that write `n`, with no
/// leading zero unless `n` is 0.
pub proof fn lemma_hex_text(n: nat)
    ensures
        hex_text(n).len() >= 1,
        all_digits(hex_text(n), 16),
        text_value(hex_text(n), 16) == n,
        digit_value(hex_text(n)[0]) == 0 ==> n == 0,
    decreases n,
{
    lemma_digit_value((n % 16) as int);
    if n >= 16 {
        lemma_hex_text(n / 16);
        let t = hex_text(n);
        assert(t.drop_last() =~= hex_text(n / 16));
        assert(t.last() == digit_chars()[(n % 16) as int]);
        assert(text_value(t, 16) == text_value(t.drop_last(), 16) * 16 + digit_value(t.last()));
        assert(n == (n / 16) * 16 + n % 16);
        assert(t[0] == hex_text(n / 16)[0]);
        assert forall|i: int| 0 <= i < t.len() implies 0 <= #[trigger] digit_value(t[i]) < 16 by {
            if i < t.len() - 1 {
                assert(t[i] == hex_text(n / 16)[i]);
            }
        }
    } else {
        let t = hex_text(n);
        assert(t.drop_last() =~= Seq::<char>::empty());
        assert(text_value(t, 16) == text_value(t.drop_last(), 16) * 16 + digit_value(t.last()));
    }
}

/// Leading zeros do not change the value of a number's digits.
proof fn lemma_leading_zeros(k: nat, h: Seq<char>, base: int)
    ensures
        text_value(zeros(k) + h, base) == text_value(h, base),
    decreases h.len(), k,
{
    assert(digit_value('0') == 0);
    if h.len() == 0 {
        assert(zeros(k) + h =~= zeros(k));
        if k > 0 {
            assert(zeros(k).drop_last() =~= zeros((k - 1) as nat));
            lemma_leading_zeros((k - 1) as nat, h, base);
            assert(zeros((k - 1) as nat) + h =~= zeros((k - 1) as nat));
        }
    } else {
        assert((zeros(k) + h).drop_last() =~= zeros(k) + h.drop_last());
        lemma_leading_zeros(k, h.drop_last(), base);
    }
}

/// The padded hexadecimal field of a 32-bit number is ten characters: `0x`
/// and eight hexadecimal digits that write the number.
pub proof fn lemma_hex_field(n: nat)
    requires
        n <= 0xFFFF_FFFF,
    ensures
        hex_field(n).len() == 10,
        hex_field(n).take(2) == "0x"@,
        all_digits(hex_field(n).skip(2), 16),
        text_value(hex_field(n).skip(2), 16) == n,
{
    reveal_strlit("0x");
    lemma_hex_text(n);
    assert(pow16(8) == 0x1_0000_0000) by {
        reveal_with_fuel(pow16, 9);
    }
    lemma_hex_len_le(n, 8);
    let h = hex_text(n);
    let body = if h.len() < 8 { zeros((8 - h.len()) as nat) + h } else { h };
    assert(hex_field(n).skip(2) =~= body);
    assert(hex_field(n).take(2) =~= "0x"@);
    if h.len() < 8 {
        lemma_leading_zeros((8 - h.len()) as nat, h, 16);
        assert(digit_value('0') == 0);
        assert forall|i: int| 0 <= i < body.len() implies 0 <= #[trigger] digit_value(body[i]) < 16 by {
            if i >= 8 - h.len() {
                assert(body[i] == h[i - (8 - h.len())]);
            }
        }
    }
}

/// The signed text of `i` is a minus sign before the decimal text of `-i`
/// when `i` is negative, else the decimal text of `i`.
pub proof fn lemma_signed_text(i: int)
    ensures
        i < 0 ==> signed_text(i)[0] == '-' && signed_text(i).skip(1) == dec_text((-i) as nat),
        i >= 0 ==> signed_text(i) == dec_text(i as nat),
{
    if i < 0 {
        reveal_strlit("-");
        assert(signed_text(i).skip(1) =~= dec_text((-i) as nat));
    }
}

/// The flag texts are `true` and `false`.
pub proof fn lemma_bool_text(b: bool)
    ensures
        bool_text(b) == (if b { seq!['t', 'r', 'u', 'e'] } else { seq!['f', 'a', 'l', 's', 'e'] }),
{
    reveal_strlit("true");
    reveal_strlit("false");
    assert(bool_text(true) =~= seq!['t', 'r', 'u', 'e']);
    assert(bool_text(false) =~= seq!['f', 'a', 'l', 's', 'e']);
}

/// `k` zero digits.
pub open spec fn zeros(k: nat) -> Seq<char> {
    Seq::new(k, |i: int| '0')
}

/// `n` in hexadecimal after `0x`, zero-padded to ten characters in all.
pub open spec fn hex_field(n: nat) -> Seq<char> {
    let h = hex_text(n);
    "0x"@ + (if h.len() < 8 { zeros((8 - h.len()) as nat) + h } else { h })
}

/// `i` in decimal, with a minus sign when negative.
pub open spec fn signed_text(i: int) -> Seq<char> {
    if i < 0 {
        "-"@ + dec_text((-i) as nat)
    } else {
        dec_text(i as nat)
    }
}

/// `true` or `false`.
pub open spec fn bool_text(b: bool) -> Seq<char> {
    if b { "true"@ } else { "false"@ }
}

/// `t` begins with `x`.
pub open spec fn starts_with(t: Seq<char>, x: Seq<char>) -> bool {
    x.len() <= t.len() && t.take(x.len() as int) == x
}

/// `t` ends with `x`.
pub open spec fn ends_with(t: Seq<char>, x: Seq<char>) -> bool {
    x.len() <= t.len() && t.skip(t.len() - x.len()) == x
}

/// `x` occurs in `t` as a run of consecutive characters.
pub open spec fn shows(t: Seq<char>, x: Seq<char>) -> bool {
    exists|i: int| 0 <= i && i + x.len() <= t.len() && #[trigger] t.subrange(i, i + x.len()) == x
}

/// A text made of three parts begins with the first, shows the second and
/// ends with the third.
pub proof fn lemma_parts(pre: Seq<char>, x: Seq<char>, post: Seq<char>)
    ensures
        starts_with(pre + x + post, pre),
        shows(pre + x + post, x),
        ends_with(pre + x + post, post),
{
    let t = pre + x + post;
    assert(t.take(pre.len() as int) =~= pre);
    assert(t.subrange(pre.len() as int, pre.len() + x.len() as int) =~= x);
    assert(t.skip(t.len() - post.len()) =~= post);
}

/// The text that `String::from_utf8_lossy` makes of `bytes`: the UTF-8 they
/// hold, each invalid sequence replaced by U+FFFD.
pub uninterp spec fn utf8_lossy(bytes: Seq<u8>) -> Seq<char>;

/// `String::from_utf8_lossy`, made an owned `String`. Its result is a function
/// of the bytes alone, named `utf8_lossy`; the decoding itself is not stated.
#[verifier::external_body]
pub(crate) fn lossy_text(bytes: &[u8]) -> (s: String)
    ensures
        s@ == utf8_lossy(bytes@),
{
    String::from_utf8_lossy(bytes).into_owned()
}

/// The one-character text of digit `d`.
fn digit_str(d: u64) -> (s: &'static str)
    requires
        d < 16,
    ensures
        s@ == seq![digit_chars()[d as int]],
{
    match d {
        0 => { proof { reveal_strlit("0"); } "0" },
        1 => { proof { reveal_strlit("1"); } "1" },
        2 => { proof { reveal_strlit("2"); } "2" },
        3 => { proof { reveal_strlit("3"); } "3" },
        4 => { proof { reveal_strlit("4"); } "4" },
        5 => { proof { reveal_strlit("5"); } "5" },
        6 => { proof { reveal_strlit("6"); } "6" },
        7 => { proof { reveal_strlit("7"); } "7" },
        8 => { proof { reveal_strlit("8"); } "8" },
        9 => { proof { reveal_strlit("9"); } "9" },
        10 => { proof { reveal_strlit("a"); } "a" },
        11 => { proof { reveal_strlit("b"); } "b" },
        12 => { proof { reveal_strlit("c"); } "c" },
        13 => { proof { reveal_strlit("d"); } "d" },
        14 => { proof { reveal_strlit("e"); } "e" },
        _ => { proof { reveal_strlit("f"); } "f" },
    }
}

/// Appends `n` in decimal.
pub fn push_dec(out: &mut String, n: u64)
    ensures
        final(out)@ == old(out)@ + dec_text(n as nat),
    decreases n,
{
    if n >= 10 {
        push_dec(out, n / 10);
    }
    out.append(digit_str(n % 10));
    assert(old(out)@ + dec_text(n as nat) =~= if n >= 10 {
        old(out)@ + dec_text((n / 10) as nat) + seq![digit_chars()[(n % 10) as int]]
    } else {
        old(out)@ + seq![digit_chars()[(n % 10) as int]]
    });
}

/// Appends `n` in lower-case hexadecimal.
pub fn push_hex(out: &mut String, n: u64)
    ensures
        final(out)@ == old(out)@ + hex_text(n as nat),
    decreases n,
{
    if n >= 16 {
        push_hex(out, n / 16);
    }
    out.append(digit_str(n % 16));
    assert(old(out)@ + hex_text(n as nat) =~= if n >= 16 {
        old(out)@ + hex_text((n / 16) as nat) + seq![digit_chars()[(n % 16) as int]]
    } else {
        old(out)@ + seq![digit_chars()[(n % 16) as int]]
    });
}

/// The number of hexadecimal digits of `n`.
fn hex_width(n: u64) -> (w: usize)
    ensures
        w == hex_text(n as nat).len(),
        w <= 16,
    decreases n,
{
    if n >= 16 {
        proof {
            assert(n / 16 < 0x1000_0000_0000_0000) by (nonlinear_arith) requires n <= u64::MAX;
        }
        let w = hex_width(n / 16);
        proof { lemma_hex_width_bound((n / 16) as nat); }
        w + 1
    } else {
        1
    }
}

/// A number below `16^k` has at most `k` hexadecimal digits.
proof fn lemma_hex_width_bound(n: nat)
    requires
        n < 0x1000_0000_0000_0000,
    ensures
        hex_text(n).len() <= 15,
{
    assert(pow16(15) == 0x1000_0000_0000_0000) by {
        reveal_with_fuel(pow16, 16);
    }
    lemma_hex_len_le(n, 15);
}

/// Bounds the number of hexadecimal digits by the size of `n`.
proof fn lemma_hex_len_le(n: nat, k: nat)
    requires
        k >= 1,
        n < pow16(k),
    ensures
        hex_text(n).len() <= k,
    decreases k,
{
    if n >= 16 {
        assert(n / 16 < pow16((k - 1) as nat)) by (nonlinear_arith)
            requires n < pow16(k), pow16(k) == 16 * pow16((k - 1) as nat), k >= 1, n >= 16;
        assert(k >= 2) by {
            if k == 1 {
                assert(pow16(1) == 16 * pow16(0));
            }
        }
        lemma_hex_len_le(n / 16, (k - 1) as nat);
    }
}

/// Sixteen to the power `k`.
spec fn pow16(k: nat) -> nat
    decreases k,
{
    if k == 0 { 1 } else { 16 * pow16((k - 1) as nat) }
}

/// Appends `n` as `0x` and at least eight hexadecimal digits, zero-padded.
pub fn push_hex_field(out: &mut String, n: u64)
    ensures
        final(out)@ == old(out)@ + hex_field(n as nat),
{
    let w = hex_width(n);
    out.append("0x");
    let ghost base = out@;
    let mut i: usize = w;
    while i < 8
        invariant
            w <= i,
            w == hex_text(n as nat).len(),
            i <= 8 || i == w,
            out@ == base + zeros((i - w) as nat),
        decreases 8 - i,
    {
        proof { reveal_strlit("0"); }
        out.append("0");
        assert(out@ =~= base + zeros((i + 1 - w) as nat));
        i = i + 1;
    }
    push_hex(out, n);
    if w < 8 {
        assert(i == 8);
        assert(out@ =~= old(out)@ + hex_field(n as nat));
    } else {
        assert(zeros(0) =~= Seq::<char>::empty());
        assert(out@ =~= old(out)@ + hex_field(n as nat));
    }
}

/// Appends `i` in decimal, with a minus sign when negative.
pub fn push_signed(out: &mut String, i: i64)
    ensures
        final(out)@ == old(out)@ + signed_text(i as int),
{
    if i < 0 {
        out.append("-");
        let m: u64 = (-(i as i128)) as u64;
        push_dec(out, m);
        assert(out@ =~= old(out)@ + signed_text(i as int));
    } else {
        push_dec(out, i as u64);
    }
}

/// Appends `true` or `false`.
pub fn push_bool(out: &mut String, b: bool)
    ensures
        final(out)@ == old(out)@ + bool_text(b),
{
    if b {
        out.append("true");
    } else {
        out.append("false");
    }
}

/// Appends the text `String::from_utf8_lossy` makes of `bytes`.
pub fn push_lossy(out: &mut String, bytes: &[u8])
    ensures
        final(out)@ == old(out)@ + utf8_lossy(bytes@),
{
    let t = lossy_text(bytes);
    out.append(t.as_str());
}

} // verus!
