//! Text as bytes. Names and record contents are strings; everything this
//! library says about them it says about their UTF-8 bytes.

use vstd::prelude::*;
use vstd::utf8::*;

verus! {

/// The byte `.`, which separates the labels of a name and the octets of an
/// IPv4 address.
pub const DOT: u8 = 0x2e;

/// The byte `:`, which separates the groups of an IPv6 address.
pub const COLON: u8 = 0x3a;

/// The byte of a space.
pub const SPACE: u8 = 0x20;

/// The byte `+`.
pub const PLUS: u8 = 0x2b;

/// The UTF-8 bytes of a string.
pub open spec fn text_bytes(s: Seq<char>) -> Seq<u8> {
    encode_utf8(s)
}

/// The pieces of `s` between the occurrences of `sep`. There is always at
/// least one piece, and a separator at either end or two in a row give an
/// empty piece: each byte either extends the last piece or, being the
/// separator, opens a new one.
pub open spec fn split(s: Seq<u8>, sep: u8) -> Seq<Seq<u8>>
    decreases s.len(),
{
    if s.len() == 0 {
        seq![Seq::<u8>::empty()]
    } else {
        let before = split(s.drop_last(), sep);
        if s.last() == sep {
            before.push(Seq::<u8>::empty())
        } else {
            before.drop_last().push(before.last().push(s.last()))
        }
    }
}

/// The byte contents of a list of byte vectors.
pub open spec fn pieces_view(v: Seq<Vec<u8>>) -> Seq<Seq<u8>> {
    Seq::new(v.len(), |i: int| v[i]@)
}

/// Cutting a text always gives at least one piece.
pub proof fn lemma_split_nonempty(s: Seq<u8>, sep: u8)
    ensures
        split(s, sep).len() >= 1,
    decreases s.len(),
{
    if s.len() > 0 {
        lemma_split_nonempty(s.drop_last(), sep);
    }
}

/// No piece is longer than the text it was cut from.
pub proof fn lemma_split_piece_len(s: Seq<u8>, sep: u8, i: int)
    requires
        0 <= i < split(s, sep).len(),
    ensures
        split(s, sep)[i].len() <= s.len(),
    decreases s.len(),
{
    if s.len() > 0 {
        let before = split(s.drop_last(), sep);
        lemma_split_nonempty(s.drop_last(), sep);
        if s.last() == sep {
            if i < before.len() {
                lemma_split_piece_len(s.drop_last(), sep, i);
            }
        } else {
            lemma_split_piece_len(s.drop_last(), sep, i);
        }
    }
}

/// Cutting `a`, a separator and `b` in a row gives the pieces of `a` and
/// then the pieces of `b`.
pub proof fn lemma_split_join(a: Seq<u8>, b: Seq<u8>, sep: u8)
    ensures
        split(a + seq![sep] + b, sep) == split(a, sep) + split(b, sep),
    decreases b.len(),
{
    let whole = a + seq![sep] + b;
    if b.len() == 0 {
        assert(whole.drop_last() =~= a);
        assert(split(b, sep) =~= seq![Seq::<u8>::empty()]);
        assert(split(whole, sep) =~= split(a, sep) + split(b, sep));
    } else {
        let shorter = a + seq![sep] + b.drop_last();
        assert(whole.drop_last() =~= shorter);
        assert(whole.last() == b.last());
        lemma_split_join(a, b.drop_last(), sep);
        lemma_split_nonempty(b.drop_last(), sep);
        lemma_split_nonempty(a, sep);
        let pa = split(a, sep);
        let pb = split(b.drop_last(), sep);
        assert(split(shorter, sep) == pa + pb);
        if b.last() == sep {
            assert((pa + pb).push(Seq::<u8>::empty()) =~= pa + pb.push(Seq::<u8>::empty()));
        } else {
            assert((pa + pb).last() == pb.last());
            assert((pa + pb).drop_last() =~= pa + pb.drop_last());
            assert((pa + pb).drop_last().push(pb.last().push(b.last())) =~= pa
                + pb.drop_last().push(pb.last().push(b.last())));
        }
    }
}

/// Cuts `bytes` at every `sep`.
pub fn split_bytes(bytes: &[u8], sep: u8) -> (pieces: Vec<Vec<u8>>)
    ensures
        pieces_view(pieces@) == split(bytes@, sep),
{
    let mut pieces: Vec<Vec<u8>> = Vec::new();
    let mut current: Vec<u8> = Vec::new();
    let mut i: usize = 0;
    assert(bytes@.take(0) =~= Seq::<u8>::empty());
    assert(pieces_view(pieces@).push(current@) =~= seq![Seq::<u8>::empty()]);
    while i < bytes.len()
        invariant
            i <= bytes.len(),
            split(bytes@.take(i as int), sep) == pieces_view(pieces@).push(current@),
        decreases bytes.len() - i,
    {
        let b: u8 = bytes[i];
        let ghost before = pieces_view(pieces@).push(current@);
        assert(bytes@.take(i + 1).drop_last() =~= bytes@.take(i as int));
        assert(bytes@.take(i + 1).last() == b);
        if b == sep {
            pieces.push(current);
            current = Vec::new();
            assert(pieces_view(pieces@).push(current@) =~= before.push(Seq::<u8>::empty()));
        } else {
            let ghost last = current@;
            current.push(b);
            assert(pieces_view(pieces@).push(current@) =~= before.drop_last().push(
                last.push(b),
            ));
        }
        i = i + 1;
    }
    assert(bytes@.take(i as int) =~= bytes@);
    let ghost before = pieces_view(pieces@).push(current@);
    pieces.push(current);
    assert(pieces_view(pieces@) =~= before);
    pieces
}

/// Appends `src` to `out`.
pub fn append_bytes(out: &mut Vec<u8>, src: &[u8])
    ensures
        final(out)@ == old(out)@ + src@,
{
    let mut i: usize = 0;
    while i < src.len()
        invariant
            i <= src.len(),
            out@ == old(out)@ + src@.take(i as int),
        decreases src.len() - i,
    {
        out.push(src[i]);
        assert(src@.take(i + 1) =~= src@.take(i as int).push(src@[i as int]));
        i = i + 1;
    }
    assert(src@.take(i as int) =~= src@);
}

/// The value of a digit byte in radix 10 or 16. Hexadecimal digits may be
/// of either case.
pub open spec fn digit_value(b: u8, radix: nat) -> Option<nat> {
    if 0x30 <= b <= 0x39 {
        Some((b - 0x30) as nat)
    } else if radix == 16 && 0x61 <= b <= 0x66 {
        Some((b - 0x61 + 10) as nat)
    } else if radix == 16 && 0x41 <= b <= 0x46 {
        Some((b - 0x41 + 10) as nat)
    } else {
        None
    }
}

/// Every byte of `s` is a digit of the radix.
pub open spec fn all_digits(s: Seq<u8>, radix: nat) -> bool {
    forall|i: int| 0 <= i < s.len() ==> digit_value(#[trigger] s[i], radix) is Some
}

/// The number that a row of digits writes, most significant digit first.
pub open spec fn digits_value(s: Seq<u8>, radix: nat) -> nat
    decreases s.len(),
{
    if s.len() == 0 {
        0
    } else {
        digits_value(s.drop_last(), radix) * radix + digit_value(s.last(), radix).unwrap()
    }
}

/// The digits of a number's text: the text without its plus sign, if it
/// has one.
pub open spec fn unsigned_part(s: Seq<u8>) -> Seq<u8> {
    if s.len() > 0 && s[0] == PLUS {
        s.skip(1)
    } else {
        s
    }
}

/// The number that `s` writes, if it writes one that is at most `max`: an
/// optional plus sign and then one or more digits. Leading zeros are
/// accepted; a minus sign, a blank or an empty text is not.
pub open spec fn number(s: Seq<u8>, radix: nat, max: nat) -> Option<nat> {
    let digits = unsigned_part(s);
    if digits.len() > 0 && all_digits(digits, radix) && digits_value(digits, radix) <= max {
        Some(digits_value(digits, radix))
    } else {
        None
    }
}

/// A row of digits writes no less than any of its prefixes.
pub proof fn lemma_digits_value_prefix(s: Seq<u8>, radix: nat, k: int)
    requires
        0 <= k <= s.len(),
        radix >= 1,
    ensures
        digits_value(s.take(k), radix) <= digits_value(s, radix),
    decreases s.len(),
{
    if k == s.len() {
        assert(s.take(k) =~= s);
    } else {
        assert(s.drop_last().take(k) =~= s.take(k));
        lemma_digits_value_prefix(s.drop_last(), radix, k);
        let shorter = digits_value(s.drop_last(), radix);
        assert(shorter * radix >= shorter) by (nonlinear_arith)
            requires
                radix >= 1,
                shorter >= 0,
        ;
    }
}

fn digit_of(b: u8, radix: u64) -> (d: Option<u64>)
    ensures
        match d {
            Some(v) => digit_value(b, radix as nat) == Some(v as nat) && v < 16,
            None => digit_value(b, radix as nat) is None,
        },
{
    if 0x30 <= b && b <= 0x39 {
        Some((b - 0x30) as u64)
    } else if radix == 16 && 0x61 <= b && b <= 0x66 {
        Some((b - 0x61 + 10) as u64)
    } else if radix == 16 && 0x41 <= b && b <= 0x46 {
        Some((b - 0x41 + 10) as u64)
    } else {
        None
    }
}

fn parse_number(s: &[u8], radix: u64, max: u32) -> (r: Option<u32>)
    requires
        radix == 10 || radix == 16,
    ensures
        match r {
            Some(v) => number(s@, radix as nat, max as nat) == Some(v as nat),
            None => number(s@, radix as nat, max as nat) is None,
        },
{
    let start: usize = if s.len() > 0 && s[0] == PLUS {
        1
    } else {
        0
    };
    let ghost digits = unsigned_part(s@);
    if start >= s.len() {
        return None;
    }
    let mut value: u64 = 0;
    let mut i: usize = start;
    assert(digits.take(0) =~= Seq::<u8>::empty());
    while i < s.len()
        invariant
            radix == 10 || radix == 16,
            start <= i <= s.len(),
            digits == unsigned_part(s@),
            digits == s@.skip(start as int),
            all_digits(digits.take(i - start), radix as nat),
            value == digits_value(digits.take(i - start), radix as nat),
            value <= max,
        decreases s.len() - i,
    {
        let ghost k = i - start;
        assert(digits.take(k + 1).drop_last() =~= digits.take(k));
        assert(digits.take(k + 1).last() == s@[i as int]);
        match digit_of(s[i], radix) {
            None => {
                assert(digit_value(digits[k], radix as nat) is None);
                return None;
            },
            Some(d) => {
                assert(value * radix + d <= 0xffff_ffff * 16 + 15) by (nonlinear_arith)
                    requires
                        value <= 0xffff_ffff,
                        radix <= 16,
                        d < 16,
                ;
                let next: u64 = value * radix + d;
                if next > max as u64 {
                    proof {
                        lemma_digits_value_prefix(digits, radix as nat, k + 1);
                    }
                    return None;
                }
                assert forall|j: int| 0 <= j < digits.take(k + 1).len() implies digit_value(
                    #[trigger] digits.take(k + 1)[j],
                    radix as nat,
                ) is Some by {
                    if j < k {
                        assert(digits.take(k + 1)[j] == digits.take(k)[j]);
                    }
                }
                value = next;
            },
        }
        i = i + 1;
    }
    assert(digits.take(i - start) =~= digits);
    Some(value as u32)
}

/// Reads the decimal number that `s` writes, if it is one of at most
/// `max`.
pub fn parse_decimal(s: &[u8], max: u32) -> (r: Option<u32>)
    ensures
        match r {
            Some(v) => number(s@, 10, max as nat) == Some(v as nat),
            None => number(s@, 10, max as nat) is None,
        },
{
    parse_number(s, 10, max)
}

/// Reads the hexadecimal number that `s` writes, if it is one of at most
/// `max`.
pub fn parse_hexadecimal(s: &[u8], max: u32) -> (r: Option<u32>)
    ensures
        match r {
            Some(v) => number(s@, 16, max as nat) == Some(v as nat),
            None => number(s@, 16, max as nat) is None,
        },
{
    parse_number(s, 16, max)
}

/// `std::str::from_utf8`: the bytes are handed back as text exactly when
/// they are valid UTF-8, and the text then has these very bytes.
#[verifier::external_body]
pub(crate) fn utf8_text(bytes: &[u8]) -> (r: Option<&str>)
    ensures
        r is Some <==> valid_utf8(bytes@),
        r matches Some(s) ==> text_bytes(s@) == bytes@,
{
    match std::str::from_utf8(bytes) {
        Ok(s) => Some(s),
        Err(_) => None,
    }
}

/// The string whose UTF-8 bytes are `bytes`, if there is one.
pub fn text_of(bytes: &[u8]) -> (r: Option<String>)
    ensures
        r is Some <==> valid_utf8(bytes@),
        r matches Some(s) ==> text_bytes(s@) == bytes@,
{
    match utf8_text(bytes) {
        Some(s) => Some(s.to_owned()),
        None => None,
    }
}

/// A dot alone is valid UTF-8.
pub proof fn lemma_dot_is_text()
    ensures
        valid_utf8(seq![DOT]),
{
    let chars = seq!['.'];
    assert(is_ascii_chars(chars));
    is_ascii_chars_encode_utf8(chars);
    assert(chars[0] as u8 == DOT);
    assert(encode_utf8(chars) =~= seq![DOT]);
    encode_utf8_valid_utf8(chars);
}

} // verus!
