//! Text helpers: UTF-8 conversion of byte strings and the ASCII special case.

use vstd::prelude::*;
use vstd::string::StringExecFns;
use vstd::utf8::{decode_utf8, encode_utf8, valid_utf8};

verus! {

/// The characters of an ASCII byte string.
pub open spec fn ascii_chars(b: Seq<u8>) -> Seq<char> {
    Seq::new(b.len(), |i: int| b[i] as char)
}

/// The UTF-8 bytes of a text.
pub open spec fn utf8_bytes(c: Seq<char>) -> Seq<u8> {
    encode_utf8(c)
}

/// Decode UTF-8 bytes into a `String` (`std::string::String::from_utf8`): `None`
/// exactly when the bytes are not valid UTF-8.
#[verifier::external_body]
pub fn utf8_to_string(b: &[u8]) -> (r: Option<String>)
    ensures
        r is Some <==> valid_utf8(b@),
        r matches Some(s) ==> s@ == decode_utf8(b@),
{
    String::from_utf8(b.to_vec()).ok()
}

/// The ASCII characters of `b` read back as bytes are `b`; and `b` is valid
/// UTF-8 decoding to those characters.
pub proof fn lemma_ascii_roundtrip(b: Seq<u8>)
    requires
        forall|i: int| 0 <= i < b.len() ==> b[i] < 128,
    ensures
        encode_utf8(ascii_chars(b)) == b,
        valid_utf8(b),
        decode_utf8(b) == ascii_chars(b),
{
    let c = ascii_chars(b);
    assert forall|i: int| 0 <= i < c.len() implies '\0' <= #[trigger] c[i] <= '\u{7f}' by {
        assert(c[i] == b[i] as char);
    }
    vstd::utf8::is_ascii_chars_encode_utf8(c);
    assert forall|i: int| 0 <= i < b.len() implies encode_utf8(c)[i] == b[i] by {
        assert(c[i] as u8 == encode_utf8(c)[i]);
    }
    assert(encode_utf8(c) =~= b);
    vstd::utf8::encode_utf8_valid_utf8(c);
    vstd::utf8::encode_utf8_decode_utf8(c);
}

/// A `String` holding the ASCII bytes `b`.
pub fn string_from_ascii(b: &[u8]) -> (r: String)
    requires
        forall|i: int| 0 <= i < b@.len() ==> b@[i] < 128,
    ensures
        r@ == ascii_chars(b@),
{
    proof {
        lemma_ascii_roundtrip(b@);
    }
    match utf8_to_string(b) {
        Some(s) => s,
        None => String::new(),
    }
}

/// The UTF-8 bytes of `s`.
pub fn string_bytes(s: &String) -> (r: Vec<u8>)
    ensures
        r@ == encode_utf8(s@),
{
    let b = s.as_str().as_bytes();
    crate::tlv::slice_to_vec(b, 0, b.len())
}

/// Decoding the UTF-8 bytes of a text gives the text back.
pub proof fn lemma_utf8_roundtrip(c: Seq<char>)
    ensures
        valid_utf8(encode_utf8(c)),
        decode_utf8(encode_utf8(c)) == c,
{
    vstd::utf8::encode_utf8_valid_utf8(c);
    vstd::utf8::encode_utf8_decode_utf8(c);
}

/// The characters of ASCII text are its bytes.
pub proof fn lemma_ascii_text(c: Seq<char>)
    requires
        vstd::utf8::is_ascii_chars(c),
    ensures
        ascii_chars(encode_utf8(c)) == c,
        forall|i: int| 0 <= i < encode_utf8(c).len() ==> encode_utf8(c)[i] < 128,
{
    vstd::utf8::is_ascii_chars_encode_utf8(c);
    let b = encode_utf8(c);
    assert forall|i: int| 0 <= i < b.len() implies b[i] < 128 by {
        assert(c[i] as u8 == b[i]);
        assert('\0' <= c[i] <= '\u{7f}');
    }
    assert forall|i: int| 0 <= i < c.len() implies ascii_chars(b)[i] == c[i] by {
        assert(c[i] as u8 == b[i]);
        assert('\0' <= c[i] <= '\u{7f}');
    }
    assert(ascii_chars(b) =~= c);
}

/// Unicode `White_Space`, the characters that `str::trim` removes.
pub open spec fn is_white_space(c: char) -> bool {
    ||| '\u{9}' <= c <= '\u{d}'
    ||| c == ' '
    ||| c == '\u{85}'
    ||| c == '\u{a0}'
    ||| c == '\u{1680}'
    ||| '\u{2000}' <= c <= '\u{200a}'
    ||| c == '\u{2028}'
    ||| c == '\u{2029}'
    ||| c == '\u{202f}'
    ||| c == '\u{205f}'
    ||| c == '\u{3000}'
}

pub fn white_space(c: char) -> (r: bool)
    ensures
        r == is_white_space(c),
{
    ('\u{9}' <= c && c <= '\u{d}') || c == ' ' || c == '\u{85}' || c == '\u{a0}' || c == '\u{1680}'
        || ('\u{2000}' <= c && c <= '\u{200a}') || c == '\u{2028}' || c == '\u{2029}' || c
        == '\u{202f}' || c == '\u{205f}' || c == '\u{3000}'
}

/// Index of the first character that is not white space.
pub open spec fn lead_ws(c: Seq<char>) -> nat
    decreases c.len(),
{
    if c.len() > 0 && is_white_space(c[0]) {
        1 + lead_ws(c.drop_first())
    } else {
        0
    }
}

/// Index just after the last character that is not white space.
pub open spec fn trail_end(c: Seq<char>) -> nat
    decreases c.len(),
{
    if c.len() > 0 && is_white_space(c.last()) {
        trail_end(c.drop_last())
    } else {
        c.len()
    }
}

/// `c` without its leading and trailing white space.
pub open spec fn trimmed(c: Seq<char>) -> Seq<char> {
    let d = c.skip(lead_ws(c) as int);
    d.take(trail_end(d) as int)
}

proof fn lemma_lead_ws(c: Seq<char>, i: int)
    requires
        0 <= i <= c.len(),
        forall|k: int| 0 <= k < i ==> is_white_space(#[trigger] c[k]),
        i == c.len() || !is_white_space(c[i]),
    ensures
        lead_ws(c) == i,
    decreases c.len(),
{
    if i > 0 {
        assert forall|k: int| 0 <= k < i - 1 implies is_white_space(#[trigger] c.drop_first()[k]) by {
            assert(c.drop_first()[k] == c[k + 1]);
        }
        lemma_lead_ws(c.drop_first(), i - 1);
    }
}

proof fn lemma_trail_end(c: Seq<char>, j: int)
    requires
        0 <= j <= c.len(),
        forall|k: int| j <= k < c.len() ==> is_white_space(#[trigger] c[k]),
        j == 0 || !is_white_space(c[j - 1]),
    ensures
        trail_end(c) == j,
    decreases c.len(),
{
    if j < c.len() {
        assert forall|k: int| j <= k < c.drop_last().len() implies is_white_space(#[trigger] c.drop_last()[k]) by {
            assert(c.drop_last()[k] == c[k]);
        }
        lemma_trail_end(c.drop_last(), j);
    }
}

/// `s` without its leading and trailing white space (`str::trim`).
pub fn trim_text(s: &str) -> (r: &str)
    ensures
        r@ == trimmed(s@),
{
    let n = s.unicode_len();
    let mut i: usize = 0;
    while i < n && white_space(s.get_char(i))
        invariant
            i <= n,
            n == s@.len(),
            forall|k: int| 0 <= k < i ==> is_white_space(#[trigger] s@[k]),
        decreases n - i,
    {
        i = i + 1;
    }
    let mut j: usize = n;
    while j > i && white_space(s.get_char(j - 1))
        invariant
            i <= j <= n,
            n == s@.len(),
            forall|k: int| j <= k < n ==> is_white_space(#[trigger] s@[k]),
        decreases j - i,
    {
        j = j - 1;
    }
    proof {
        lemma_lead_ws(s@, i as int);
        let d = s@.skip(i as int);
        assert forall|k: int| j - i <= k < d.len() implies is_white_space(#[trigger] d[k]) by {
            assert(d[k] == s@[k + i]);
        }
        if j > i {
            assert(d[j - i - 1] == s@[j - 1]);
        }
        lemma_trail_end(d, j - i);
        assert(d.take((j - i) as int) =~= s@.subrange(i as int, j as int));
    }
    s.substring_char(i, j)
}

/// What `String::from_utf8_lossy` makes of some bytes.
pub uninterp spec fn lossy_utf8(b: Seq<u8>) -> Seq<char>;

/// `String::from_utf8_lossy`: the contract names the result and claims that
/// valid UTF-8 decodes exactly; how invalid sequences become replacement
/// characters it leaves unstated.
#[verifier::external_body]
pub fn utf8_lossy(b: &[u8]) -> (r: String)
    ensures
        r@ == lossy_utf8(b@),
        valid_utf8(b@) ==> r@ == decode_utf8(b@),
{
    String::from_utf8_lossy(b).into_owned()
}

/// An owned copy of `s`.
pub fn string_from_static(s: &str) -> (r: String)
    ensures
        r@ == s@,
{
    s.to_string()
}

/// Append `t` to `s`.
pub fn push_text(s: &mut String, t: &str)
    ensures
        final(s)@ == old(s)@ + t@,
{
    s.append(t)
}

/// The text `a` followed by `b`.
pub fn concat2(a: &str, b: &str) -> (r: String)
    ensures
        r@ == a@ + b@,
{
    let mut s = string_from_static(a);
    push_text(&mut s, b);
    s
}

/// The text `a` followed by `b` and `c`.
pub fn concat3(a: &str, b: &str, c: &str) -> (r: String)
    ensures
        r@ == a@ + b@ + c@,
{
    let mut s = string_from_static(a);
    push_text(&mut s, b);
    push_text(&mut s, c);
    s
}

/// Decimal digits of a number, as text.
pub open spec fn decimal_text(n: nat) -> Seq<char>
    decreases n,
{
    if n < 10 {
        seq![((n + 48) as u8) as char]
    } else {
        decimal_text(n / 10).push((((n % 10) + 48) as u8) as char)
    }
}

/// The decimal text of `n` (`u64::to_string`).
pub fn u64_text(n: u64) -> (r: String)
    ensures
        r@ == decimal_text(n as nat),
    decreases n,
{
    if n < 10 {
        let b = [(n as u8) + 48];
        proof {
            lemma_ascii_roundtrip(b@);
            assert(ascii_chars(b@) =~= decimal_text(n as nat));
        }
        string_from_ascii(&b)
    } else {
        let mut s = u64_text(n / 10);
        let b = [((n % 10) as u8) + 48];
        proof {
            lemma_ascii_roundtrip(b@);
        }
        let t = string_from_ascii(&b);
        push_text(&mut s, t.as_str());
        proof {
            assert(s@ =~= decimal_text(n as nat));
        }
        s
    }
}

/// The lowercase hexadecimal digit of `d < 16`.
pub open spec fn hex_digit(d: nat) -> char {
    if d < 10 {
        ((d + 48) as u8) as char
    } else {
        ((d + 87) as u8) as char
    }
}

/// Lowercase hexadecimal digits of a number, as text.
pub open spec fn hex_text(n: nat) -> Seq<char>
    decreases n,
{
    if n < 16 {
        seq![hex_digit(n)]
    } else {
        hex_text(n / 16).push(hex_digit(n % 16))
    }
}

/// The lowercase hexadecimal text of `n` (`format!("{n:x}")`).
pub fn u64_hex(n: u64) -> (r: String)
    ensures
        r@ == hex_text(n as nat),
    decreases n,
{
    let d = (n % 16) as u8;
    let c: u8 = if d < 10 {
        d + 48
    } else {
        d + 87
    };
    let b = [c];
    proof {
        lemma_ascii_roundtrip(b@);
    }
    let t = string_from_ascii(&b);
    proof {
        assert(t@ =~= seq![hex_digit((n % 16) as nat)]);
    }
    if n < 16 {
        t
    } else {
        let mut s = u64_hex(n / 16);
        push_text(&mut s, t.as_str());
        proof {
            assert(s@ =~= hex_text(n as nat));
        }
        s
    }
}

/// Whether two texts are equal.
pub fn str_eq(a: &str, b: &str) -> (r: bool)
    ensures
        r == (a@ == b@),
{
    let n = a.unicode_len();
    let m = b.unicode_len();
    if n != m {
        return false;
    }
    let mut i: usize = 0;
    while i < n
        invariant
            i <= n,
            n == a@.len(),
            m == b@.len(),
            n == m,
            forall|k: int| 0 <= k < i ==> a@[k] == b@[k],
        decreases n - i,
    {
        if a.get_char(i) != b.get_char(i) {
            return false;
        }
        i = i + 1;
    }
    proof {
        assert(a@ =~= b@);
    }
    true
}

} // verus!
