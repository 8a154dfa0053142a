//! Byte-level text helpers: ASCII case mapping and UTF-8 decoding.
use vstd::prelude::*;
use vstd::utf8::*;
use vstd::string::*;

verus! {

broadcast use vstd::utf8::group_utf8_lib;

/// The byte of `.`, which separates labels in a domain name.
pub const DOT: u8 = 0x2E;

/// ASCII lowercase of one byte; every other byte is unchanged.
pub open spec fn lower_byte(b: u8) -> u8 {
    if 0x41 <= b <= 0x5A {
        (b + 32) as u8
    } else {
        b
    }
}

/// ASCII lowercase of a byte sequence.
pub open spec fn lower_bytes(s: Seq<u8>) -> Seq<u8> {
    s.map_values(|b: u8| lower_byte(b))
}

/// The UTF-8 bytes of a string value.
pub open spec fn str_bytes(s: Seq<char>) -> Seq<u8> {
    encode_utf8(s)
}

/// ASCII lowercase of one byte.
pub fn to_lower_byte(b: u8) -> (r: u8)
    ensures
        r == lower_byte(b),
{
    if 0x41 <= b && b <= 0x5A {
        b + 32
    } else {
        b
    }
}

/// ASCII lowercase copy of `b`.
pub fn lowercase_ascii(b: &[u8]) -> (r: Vec<u8>)
    ensures
        r@ == lower_bytes(b@),
{
    let mut r: Vec<u8> = Vec::with_capacity(b.len());
    let mut i: usize = 0;
    while i < b.len()
        invariant
            i <= b@.len(),
            r@ == lower_bytes(b@.subrange(0, i as int)),
        decreases b@.len() - i,
    {
        r.push(to_lower_byte(b[i]));
        i += 1;
        assert(lower_bytes(b@.subrange(0, i as int)) =~= lower_bytes(b@.subrange(0, i - 1)).push(
            lower_byte(b@[i - 1]),
        ));
    }
    assert(b@.subrange(0, i as int) =~= b@);
    r
}

/// Relies on std::str::from_utf8: it succeeds exactly on valid UTF-8, and the text
/// it hands back borrows the same bytes.
#[verifier::external_body]
pub(crate) fn utf8_str(b: &[u8]) -> (r: Option<&str>)
    ensures
        r is Some <==> valid_utf8(b@),
        r matches Some(s) ==> s.spec_bytes() == b@,
{
    std::str::from_utf8(b).ok()
}

/// The string whose UTF-8 encoding is `b`, or `None` when `b` is not valid UTF-8.
pub fn decode_text(b: &[u8]) -> (r: Option<String>)
    ensures
        r is Some <==> valid_utf8(b@),
        r matches Some(s) ==> s@ == decode_utf8(b@) && str_bytes(s@) == b@,
{
    match utf8_str(b) {
        Some(s) => {
            let owned = s.to_owned();
            proof {
                assert(decode_utf8(encode_utf8(s@)) == s@);
            }
            Some(owned)
        },
        None => None,
    }
}

/// Every byte is below 0x80.
pub open spec fn ascii_bytes(b: Seq<u8>) -> bool {
    forall|i: int| 0 <= i < b.len() ==> #[trigger] b[i] < 0x80
}

/// ASCII bytes are valid UTF-8 and decode to one character per byte.
pub proof fn lemma_ascii_decode(b: Seq<u8>)
    requires
        ascii_bytes(b),
    ensures
        valid_utf8(b),
        decode_utf8(b) == b.map_values(|c: u8| c as char),
    decreases b.len(),
{
    if b.len() > 0 {
        let rest = b.drop_first();
        assert(ascii_bytes(rest));
        lemma_ascii_decode(rest);
        assert(is_leading_byte_width_1(b[0]));
        assert(pop_first_scalar(b) =~= rest);
        let x = b[0];
        assert(x & 0x7F == x) by (bit_vector)
            requires
                x < 0x80,
        ;
        assert(decode_first_scalar(b) == b[0] as u32);
        assert(decode_utf8(b) =~= b.map_values(|c: u8| c as char));
    } else {
        assert(decode_utf8(b) =~= b.map_values(|c: u8| c as char));
    }
}

/// ASCII case mapping keeps UTF-8 validity as it was: it only moves bytes within the
/// one-byte range, and leaves every byte of a longer sequence alone.
pub proof fn lemma_lower_keeps_utf8(b: Seq<u8>)
    ensures
        valid_utf8(lower_bytes(b)) == valid_utf8(b),
    decreases b.len(),
{
    let l = lower_bytes(b);
    if b.len() == 0 {
        assert(l.len() == 0);
    } else {
        assert forall|i: int| 0 <= i < b.len() implies (#[trigger] l[i] >= 0x80) == (b[i] >= 0x80)
            && (b[i] >= 0x80 ==> l[i] == b[i]) && (is_continuation_byte(l[i])
            == is_continuation_byte(b[i])) by {}
        if b[0] < 0x80 {
            let x = b[0];
            let y = l[0];
            assert(x & 0x7F == x) by (bit_vector)
                requires
                    x < 0x80,
            ;
            assert(y & 0x7F == y) by (bit_vector)
                requires
                    y < 0x80,
            ;
            assert(valid_first_scalar(b));
            assert(valid_first_scalar(l));
            assert(pop_first_scalar(l) =~= lower_bytes(pop_first_scalar(b)));
            lemma_lower_keeps_utf8(pop_first_scalar(b));
        } else {
            assert(l[0] == b[0]);
            if valid_leading_and_continuation_bytes_first_codepoint(b) {
                let n = length_of_first_codepoint(b);
                assert(forall|i: int| 0 <= i < n ==> #[trigger] l[i] == b[i]);
                assert(valid_leading_and_continuation_bytes_first_codepoint(l));
                assert(length_of_first_codepoint(l) == n);
                assert(decode_first_codepoint(l) == decode_first_codepoint(b));
                assert(valid_first_scalar(l) == valid_first_scalar(b));
                if valid_first_scalar(b) {
                    assert(pop_first_scalar(l) =~= lower_bytes(pop_first_scalar(b)));
                    lemma_lower_keeps_utf8(pop_first_scalar(b));
                }
            } else {
                assert(!valid_leading_and_continuation_bytes_first_codepoint(l));
            }
        }
    }
}

/// A character of Unicode's White_Space property.
pub open spec fn is_white_space(c: char) -> bool {
    let u = c as u32;
    ||| 0x09 <= u <= 0x0D
    ||| u == 0x20
    ||| u == 0x85
    ||| u == 0xA0
    ||| u == 0x1680
    ||| 0x2000 <= u <= 0x200A
    ||| u == 0x2028
    ||| u == 0x2029
    ||| u == 0x202F
    ||| u == 0x205F
    ||| u == 0x3000
}

/// `s` without its leading White_Space characters.
pub open spec fn trim_start_white_space(s: Seq<char>) -> Seq<char>
    decreases s.len(),
{
    if s.len() > 0 && is_white_space(s[0]) {
        trim_start_white_space(s.drop_first())
    } else {
        s
    }
}

/// `s` without its trailing White_Space characters.
pub open spec fn trim_end_white_space(s: Seq<char>) -> Seq<char>
    decreases s.len(),
{
    if s.len() > 0 && is_white_space(s.last()) {
        trim_end_white_space(s.drop_last())
    } else {
        s
    }
}

/// `s` without leading and trailing White_Space characters.
pub open spec fn trim_white_space(s: Seq<char>) -> Seq<char> {
    trim_end_white_space(trim_start_white_space(s))
}

/// Relies on `str::trim`: it drops the leading and trailing characters that have Unicode's
/// White_Space property.
#[verifier::external_body]
pub(crate) fn trim_str(s: &str) -> (r: &str)
    ensures
        r@ == trim_white_space(s@),
{
    s.trim()
}

/// The first byte of a nonempty string's UTF-8 encoding is `#` (or `!`) exactly when its
/// first character is.
pub proof fn lemma_first_char(chars: Seq<char>)
    requires
        chars.len() > 0,
    ensures
        encode_utf8(chars).len() > 0,
        (encode_utf8(chars)[0] == 0x23) == (chars[0] == '#'),
        (encode_utf8(chars)[0] == 0x21) == (chars[0] == '!'),
{
    let b = encode_utf8(chars);
    encode_utf8_first_scalar(chars);
    let v = chars[0] as u32;
    assert(decode_first_scalar(b) == v);
    assert(b.len() > 0);
    if b[0] < 0x80 {
        let x = b[0];
        assert(x & 0x7F == x) by (bit_vector)
            requires
                x < 0x80,
        ;
        assert(v == b[0] as u32);
    } else {
        assert(v >= 0x80);
    }
    assert('#' as u32 == 0x23);
    assert('!' as u32 == 0x21);
    char_u32_cast(chars[0], v);
    char_u32_cast('#', 0x23);
    char_u32_cast('!', 0x21);
    assert((0x23u32 as char) == '#');
    assert((0x21u32 as char) == '!');
}

} // verus!
