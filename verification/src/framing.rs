//! Length-framed fields: the byte layout of revocation records and signed
//! delegations. A blob is its length on eight big-endian bytes followed by
//! its bytes; an integer is its eight big-endian bytes; a flag is one byte.

use vstd::prelude::*;

use crate::name::{ComponentView, Name};
use crate::name_uri::{lemma_to_uri_from_uri, spec_uri_text, uri_parse};
use crate::text::{lemma_utf8_roundtrip, utf8_bytes, utf8_to_string};
use crate::tlv::{append_bytes, be_bytes, be_value, lemma_be_roundtrip, lemma_pow256_values, push_be, read_be};
use vstd::utf8::{decode_utf8, valid_utf8};

verus! {

/// An integer field.
pub open spec fn u64_field(x: u64) -> Seq<u8> {
    be_bytes(x as nat, 8)
}

/// A blob field: the length, then the bytes.
pub open spec fn blob_field(b: Seq<u8>) -> Seq<u8> {
    be_bytes(b.len(), 8) + b
}

/// A text field: the UTF-8 bytes as a blob.
pub open spec fn text_field(t: Seq<char>) -> Seq<u8> {
    blob_field(utf8_bytes(t))
}

/// A name field: the name's URI as text.
pub open spec fn name_field(n: Seq<ComponentView>) -> Seq<u8> {
    text_field(spec_uri_text(n))
}

/// Read an integer at `pos`; `None` when fewer than eight bytes remain.
pub open spec fn take_u64(s: Seq<u8>, pos: int) -> Option<(u64, int)> {
    if 0 <= pos && pos + 8 <= s.len() {
        Some((be_value(s.subrange(pos, pos + 8)) as u64, pos + 8))
    } else {
        None
    }
}

/// Read a blob at `pos`; `None` when its length or its bytes run past the
/// end.
pub open spec fn take_blob(s: Seq<u8>, pos: int) -> Option<(Seq<u8>, int)> {
    match take_u64(s, pos) {
        None => None,
        Some((len, p)) => if p + len <= s.len() {
            Some((s.subrange(p, p + len), p + len))
        } else {
            None
        },
    }
}

/// Read one byte at `pos`.
pub open spec fn take_byte(s: Seq<u8>, pos: int) -> Option<(u8, int)> {
    if 0 <= pos && pos < s.len() {
        Some((s[pos], pos + 1))
    } else {
        None
    }
}

/// Read a text at `pos`: a blob holding valid UTF-8.
pub open spec fn take_text(s: Seq<u8>, pos: int) -> Option<(Seq<char>, int)> {
    match take_blob(s, pos) {
        None => None,
        Some((b, p)) => if valid_utf8(b) {
            Some((decode_utf8(b), p))
        } else {
            None
        },
    }
}

/// Read a name at `pos`: a text that parses as a name URI.
pub open spec fn take_name(s: Seq<u8>, pos: int) -> Option<(Seq<ComponentView>, int)> {
    match take_blob(s, pos) {
        None => None,
        Some((b, p)) => if valid_utf8(b) {
            match uri_parse(b) {
                None => None,
                Some(n) => Some((n, p)),
            }
        } else {
            None
        },
    }
}

/// Append an integer field.
pub fn put_u64(out: &mut Vec<u8>, x: u64)
    ensures
        final(out)@ == old(out)@ + u64_field(x),
{
    push_be(out, x, 8);
}

/// Append a blob field.
pub fn put_blob(out: &mut Vec<u8>, b: &[u8])
    ensures
        final(out)@ == old(out)@ + blob_field(b@),
{
    let ghost start = out@;
    put_u64(out, b.len() as u64);
    append_bytes(out, b);
    proof {
        assert(out@ =~= start + blob_field(b@));
    }
}

/// Append a text field.
pub fn put_text(out: &mut Vec<u8>, t: &str)
    ensures
        final(out)@ == old(out)@ + text_field(t@),
{
    put_blob(out, t.as_bytes());
}

/// Append a name field.
pub fn put_name(out: &mut Vec<u8>, n: &Name)
    ensures
        final(out)@ == old(out)@ + name_field(n@),
{
    let t = n.to_uri();
    put_text(out, t.as_str());
}

/// Read an integer at `pos`.
pub fn get_u64(s: &[u8], pos: usize) -> (r: Option<(u64, usize)>)
    ensures
        match take_u64(s@, pos as int) {
            None => r is None,
            Some((x, p)) => r matches Some((y, q)) && y == x && q == p,
        },
{
    if pos > s.len() || s.len() - pos < 8 {
        return None;
    }
    let v = read_be(s, pos, 8);
    Some((v, pos + 8))
}

/// Read a blob at `pos`: where its bytes start and end.
pub fn get_blob(s: &[u8], pos: usize) -> (r: Option<(usize, usize)>)
    ensures
        match take_blob(s@, pos as int) {
            None => r is None,
            Some((b, p)) => r matches Some((start, end)) && start <= end <= s@.len()
                && s@.subrange(start as int, end as int) == b && end == p,
        },
{
    let (len, p) = match get_u64(s, pos) {
        None => return None,
        Some(x) => x,
    };
    if (s.len() - p) as u64 >= len {
        let end = p + len as usize;
        Some((p, end))
    } else {
        None
    }
}

/// Read one byte at `pos`.
pub fn get_byte(s: &[u8], pos: usize) -> (r: Option<(u8, usize)>)
    ensures
        match take_byte(s@, pos as int) {
            None => r is None,
            Some((b, p)) => r matches Some((c, q)) && c == b && q == p,
        },
{
    if pos < s.len() {
        Some((s[pos], pos + 1))
    } else {
        None
    }
}

/// Read a text at `pos`.
pub fn get_text(s: &[u8], pos: usize) -> (r: Option<(String, usize)>)
    ensures
        match take_text(s@, pos as int) {
            None => r is None,
            Some((t, p)) => r matches Some((u, q)) && u@ == t && q == p,
        },
{
    let (start, end) = match get_blob(s, pos) {
        None => return None,
        Some(x) => x,
    };
    let v = crate::tlv::slice_to_vec(s, start, end);
    match utf8_to_string(v.as_slice()) {
        None => None,
        Some(t) => Some((t, end)),
    }
}

/// Read a name at `pos`.
pub fn get_name(s: &[u8], pos: usize) -> (r: Option<(Name, usize)>)
    ensures
        match take_name(s@, pos as int) {
            None => r is None,
            Some((n, p)) => r matches Some((m, q)) && m@ == n && q == p,
        },
{
    let (start, end) = match get_blob(s, pos) {
        None => return None,
        Some(x) => x,
    };
    let v = crate::tlv::slice_to_vec(s, start, end);
    match utf8_to_string(v.as_slice()) {
        None => None,
        Some(_) => match Name::from_uri_bytes(v.as_slice()) {
            None => None,
            Some(n) => Some((n, end)),
        },
    }
}

/// An integer field reads back as the integer.
pub proof fn lemma_take_u64(s: Seq<u8>, pos: int, x: u64)
    requires
        0 <= pos,
        pos + 8 <= s.len(),
        s.subrange(pos, pos + 8) == u64_field(x),
    ensures
        take_u64(s, pos) == Some((x, pos + 8)),
{
    lemma_pow256_values();
    lemma_be_roundtrip(x as nat, 8);
}

/// A blob field reads back as the blob.
pub proof fn lemma_take_blob(s: Seq<u8>, pos: int, b: Seq<u8>)
    requires
        0 <= pos,
        pos + 8 + b.len() <= s.len(),
        s.subrange(pos, pos + 8 + b.len()) == blob_field(b),
        b.len() <= u64::MAX,
    ensures
        take_blob(s, pos) == Some((b, pos + 8 + b.len())),
{
    lemma_pow256_values();
    lemma_be_roundtrip(b.len(), 8);
    assert(s.subrange(pos, pos + 8) =~= s.subrange(pos, pos + 8 + b.len()).subrange(0, 8));
    assert(blob_field(b).subrange(0, 8) =~= be_bytes(b.len(), 8));
    assert(s.subrange(pos + 8, pos + 8 + b.len()) =~= s.subrange(pos, pos + 8 + b.len()).subrange(8, 8 + b.len() as int));
    assert(blob_field(b).subrange(8, 8 + b.len() as int) =~= b);
}

/// A text field reads back as the text.
pub proof fn lemma_take_text(s: Seq<u8>, pos: int, t: Seq<char>)
    requires
        0 <= pos,
        pos + 8 + utf8_bytes(t).len() <= s.len(),
        s.subrange(pos, pos + 8 + utf8_bytes(t).len()) == text_field(t),
        utf8_bytes(t).len() <= u64::MAX,
    ensures
        take_text(s, pos) == Some((t, pos + 8 + utf8_bytes(t).len())),
{
    lemma_take_blob(s, pos, utf8_bytes(t));
    lemma_utf8_roundtrip(t);
}

/// A name field reads back as the name.
pub proof fn lemma_take_name(s: Seq<u8>, pos: int, n: Seq<ComponentView>)
    requires
        0 <= pos,
        pos + 8 + utf8_bytes(spec_uri_text(n)).len() <= s.len(),
        s.subrange(pos, pos + 8 + utf8_bytes(spec_uri_text(n)).len()) == name_field(n),
        utf8_bytes(spec_uri_text(n)).len() <= u64::MAX,
    ensures
        take_name(s, pos) == Some((n, pos + 8 + utf8_bytes(spec_uri_text(n)).len())),
{
    lemma_take_blob(s, pos, utf8_bytes(spec_uri_text(n)));
    lemma_utf8_roundtrip(spec_uri_text(n));
    lemma_to_uri_from_uri(n);
}

} // verus!
