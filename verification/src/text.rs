//! Text helpers: decimal formatting, UTF-8 decoding, characters and prefixes.
use vstd::prelude::*;
use vstd::utf8::*;

verus! {

/// Characters of a byte sequence read as ASCII.
pub open spec fn ascii_chars(b: Seq<u8>) -> Seq<char> {
    Seq::new(b.len(), |i: int| b[i] as char)
}

/// Every byte is an ASCII code (below 128).
pub open spec fn all_ascii(b: Seq<u8>) -> bool {
    forall|i: int| 0 <= i < b.len() ==> #[trigger] b[i] < 128
}

/// ASCII bytes are valid UTF-8 and decode to the characters of the same codes.
pub proof fn lemma_ascii_is_utf8(b: Seq<u8>)
    requires
        all_ascii(b),
    ensures
        valid_utf8(b),
        decode_utf8(b) == ascii_chars(b),
{
    let chars = ascii_chars(b);
    assert forall|i: int| 0 <= i < chars.len() implies '\0' <= #[trigger] chars[i] <= '\u{7f}' by {
        assert(b[i] < 128);
    }
    assert(is_ascii_chars(chars));
    is_ascii_chars_encode_utf8(chars);
    assert forall|i: int| 0 <= i < b.len() implies encode_utf8(chars)[i] == b[i] by {
        assert(chars[i] as u8 == encode_utf8(chars)[i]);
        assert(b[i] < 128);
        assert((b[i] as char) as u8 == b[i]);
    }
    assert(encode_utf8(chars) =~= b);
    encode_utf8_valid_utf8(chars);
    encode_utf8_decode_utf8(chars);
}

/// Decodes bytes as UTF-8 text.
///
/// Calls `String::from_utf8`; its contract claims that the call succeeds
/// exactly when the bytes are valid UTF-8 and then yields the decoded
/// characters, as the standard library documents.
#[verifier::external_body]
pub(crate) fn string_from_utf8(bytes: Vec<u8>) -> (r: Option<String>)
    ensures
        r is Some <==> valid_utf8(bytes@),
        r matches Some(s) ==> s@ == decode_utf8(bytes@),
{
    String::from_utf8(bytes).ok()
}

/// The ASCII digit bytes of `n` in decimal, most significant first, with no
/// leading zero (a single `0` for zero).
pub open spec fn decimal_bytes(n: nat) -> Seq<u8>
    decreases n,
{
    if n < 10 {
        seq![(48 + n) as u8]
    } else {
        decimal_bytes(n / 10) + seq![(48 + n % 10) as u8]
    }
}

/// The value that a string of ASCII decimal digits denotes.
pub open spec fn digits_value(b: Seq<u8>) -> int
    decreases b.len(),
{
    if b.len() == 0 {
        0
    } else {
        digits_value(b.drop_last()) * 10 + (b.last() - 48)
    }
}

/// An ASCII decimal digit.
pub open spec fn is_digit(c: u8) -> bool {
    48 <= c <= 57
}

/// The decimal text of an unsigned integer.
pub open spec fn spec_decimal_u32(n: u32) -> Seq<char> {
    ascii_chars(decimal_bytes(n as nat))
}

/// The decimal text of a signed integer, with a leading `-` when negative.
pub open spec fn spec_decimal_i32(v: i32) -> Seq<char> {
    if v < 0 {
        seq!['-'] + ascii_chars(decimal_bytes((-v) as nat))
    } else {
        ascii_chars(decimal_bytes(v as nat))
    }
}

/// Decimal digits are ASCII digits, the first one is nonzero unless the
/// number is zero, and they denote the number they were made from.
pub proof fn law_decimal_roundtrip(n: nat)
    ensures
        decimal_bytes(n).len() >= 1,
        forall|i: int| 0 <= i < decimal_bytes(n).len() ==> is_digit(#[trigger] decimal_bytes(n)[i]),
        n > 0 ==> decimal_bytes(n)[0] != 48,
        digits_value(decimal_bytes(n)) == n,
    decreases n,
{
    if n < 10 {
        let s = decimal_bytes(n);
        assert(s.drop_last() =~= Seq::<u8>::empty());
        assert(digits_value(s) == digits_value(s.drop_last()) * 10 + (s.last() - 48));
    } else {
        law_decimal_roundtrip(n / 10);
        let s = decimal_bytes(n);
        assert(s.drop_last() =~= decimal_bytes(n / 10));
        assert(digits_value(s) == digits_value(s.drop_last()) * 10 + (s.last() - 48));
        assert((n / 10) * 10 + n % 10 == n);
        assert forall|i: int| 0 <= i < s.len() implies is_digit(#[trigger] s[i]) by {
            if i < s.len() - 1 {
                assert(s[i] == decimal_bytes(n / 10)[i]);
            }
        }
    }
}

/// Appends the decimal digits of `n` to `out`.
fn push_decimal(n: u64, out: &mut Vec<u8>)
    ensures
        final(out)@ == old(out)@ + decimal_bytes(n as nat),
    decreases n,
{
    if n >= 10 {
        push_decimal(n / 10, out);
    }
    out.push(48 + (n % 10) as u8);
    proof {
        if n >= 10 {
            assert(final(out)@ =~= old(out)@ + decimal_bytes(n as nat));
        }
    }
}

proof fn lemma_decimal_ascii(n: nat)
    ensures
        all_ascii(decimal_bytes(n)),
{
    law_decimal_roundtrip(n);
    assert forall|i: int| 0 <= i < decimal_bytes(n).len() implies #[trigger] decimal_bytes(n)[i]
        < 128 by {
        assert(is_digit(decimal_bytes(n)[i]));
    }
}

/// Decimal text of an unsigned integer, e.g. `500`.
pub fn decimal_u32(n: u32) -> (s: String)
    ensures
        s@ == spec_decimal_u32(n),
{
    let mut bytes: Vec<u8> = Vec::new();
    push_decimal(n as u64, &mut bytes);
    proof {
        assert(bytes@ =~= decimal_bytes(n as nat));
        lemma_decimal_ascii(n as nat);
        lemma_ascii_is_utf8(bytes@);
    }
    match string_from_utf8(bytes) {
        Some(s) => s,
        None => String::new(),
    }
}

/// Decimal text of a size or count, e.g. `4096`.
pub fn decimal_usize(n: usize) -> (s: String)
    ensures
        s@ == ascii_chars(decimal_bytes(n as nat)),
{
    let mut bytes: Vec<u8> = Vec::new();
    push_decimal(n as u64, &mut bytes);
    proof {
        assert(bytes@ =~= decimal_bytes(n as nat));
        lemma_decimal_ascii(n as nat);
        lemma_ascii_is_utf8(bytes@);
    }
    match string_from_utf8(bytes) {
        Some(s) => s,
        None => String::new(),
    }
}

/// Decimal text of a signed integer, e.g. `-2`.
pub fn decimal_i32(v: i32) -> (s: String)
    ensures
        s@ == spec_decimal_i32(v),
{
    let mut bytes: Vec<u8> = Vec::new();
    let magnitude: u32 = if v < 0 {
        bytes.push(45);
        if v == i32::MIN {
            2147483648u32
        } else {
            (-v) as u32
        }
    } else {
        v as u32
    };
    let ghost prefix = bytes@;
    push_decimal(magnitude as u64, &mut bytes);
    proof {
        lemma_decimal_ascii(magnitude as nat);
        assert(all_ascii(bytes@));
        lemma_ascii_is_utf8(bytes@);
        if v < 0 {
            assert(bytes@ =~= seq![45u8] + decimal_bytes(magnitude as nat));
            assert(ascii_chars(bytes@) =~= seq!['-'] + ascii_chars(
                decimal_bytes(magnitude as nat),
            ));
        } else {
            assert(bytes@ =~= decimal_bytes(magnitude as nat));
        }
    }
    match string_from_utf8(bytes) {
        Some(s) => s,
        None => String::new(),
    }
}

/// The characters of a text, in order.
pub fn chars_of(text: &str) -> (v: Vec<char>)
    ensures
        v@ == text@,
{
    let mut v: Vec<char> = Vec::new();
    for c in it: text.chars()
        invariant
            v@ == it.seq().take(it.index() as int),
    {
        v.push(c);
    }
    v
}

/// `l` begins with `kw`.
pub open spec fn has_prefix(l: Seq<char>, kw: Seq<char>) -> bool {
    kw.len() <= l.len() && l.take(kw.len() as int) == kw
}

/// Whether `l` begins with `kw`.
pub fn starts_with(l: &Vec<char>, kw: &Vec<char>) -> (r: bool)
    ensures
        r == has_prefix(l@, kw@),
{
    if kw.len() > l.len() {
        return false;
    }
    let mut k: usize = 0;
    while k < kw.len()
        invariant
            k <= kw.len() <= l.len(),
            forall|j: int| 0 <= j < k ==> l@[j] == kw@[j],
        decreases kw.len() - k,
    {
        if l[k] != kw[k] {
            assert(l@.take(kw.len() as int)[k as int] != kw@[k as int]);
            return false;
        }
        k += 1;
    }
    assert(l@.take(kw.len() as int) =~= kw@);
    true
}

} // verus!
