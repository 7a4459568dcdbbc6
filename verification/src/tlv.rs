//! NDN-TLV primitives: big-endian integers, VAR-NUMBER, and Type-Length-Value
//! elements, each with a mathematical model and a round-trip law.

use vstd::prelude::*;

verus! {

/// `256^n`.
pub open spec fn pow256(n: nat) -> nat
    decreases n,
{
    if n == 0 {
        1
    } else {
        256 * pow256((n - 1) as nat)
    }
}

/// The `n` low-order bytes of `x`, most significant first.
pub open spec fn be_bytes(x: nat, n: nat) -> Seq<u8>
    decreases n,
{
    if n == 0 {
        Seq::empty()
    } else {
        be_bytes(x / 256, (n - 1) as nat).push((x % 256) as u8)
    }
}

/// The unsigned integer a big-endian byte string denotes.
pub open spec fn be_value(s: Seq<u8>) -> nat
    decreases s.len(),
{
    if s.len() == 0 {
        0
    } else {
        be_value(s.drop_last()) * 256 + s.last() as nat
    }
}

pub proof fn lemma_pow256_positive(n: nat)
    ensures
        pow256(n) >= 1,
    decreases n,
{
    if n > 0 {
        lemma_pow256_positive((n - 1) as nat);
    }
}

pub proof fn lemma_pow256_values()
    ensures
        pow256(1) == 256,
        pow256(2) == 0x1_0000,
        pow256(4) == 0x1_0000_0000,
        pow256(8) == 0x1_0000_0000_0000_0000,
{
    reveal_with_fuel(pow256, 9);
}

pub proof fn lemma_be_bytes_len(x: nat, n: nat)
    ensures
        be_bytes(x, n).len() == n,
    decreases n,
{
    if n > 0 {
        lemma_be_bytes_len(x / 256, (n - 1) as nat);
    }
}

/// A byte string of length `n` denotes a value below `256^n`.
pub proof fn lemma_be_value_bound(s: Seq<u8>)
    ensures
        be_value(s) < pow256(s.len()),
    decreases s.len(),
{
    if s.len() > 0 {
        lemma_be_value_bound(s.drop_last());
        let a = be_value(s.drop_last());
        let p = pow256((s.len() - 1) as nat);
        let b = s.last() as nat;
        assert(a * 256 + b < 256 * p) by (nonlinear_arith)
            requires
                a < p,
                b < 256,
        ;
    }
}

/// Writing `x` on `n` bytes and reading it back gives `x`, when it fits.
pub proof fn lemma_be_roundtrip(x: nat, n: nat)
    requires
        x < pow256(n),
    ensures
        be_value(be_bytes(x, n)) == x,
        be_bytes(x, n).len() == n,
    decreases n,
{
    lemma_be_bytes_len(x, n);
    if n > 0 {
        let p = pow256((n - 1) as nat);
        assert(x / 256 < p) by (nonlinear_arith)
            requires
                x < 256 * p,
        ;
        lemma_be_roundtrip(x / 256, (n - 1) as nat);
        assert(be_bytes(x, n).drop_last() =~= be_bytes(x / 256, (n - 1) as nat));
    }
}

/// Append the `n` low-order bytes of `x` to `out`, most significant first.
pub fn push_be(out: &mut Vec<u8>, x: u64, n: usize)
    requires
        n <= 8,
    ensures
        final(out)@ == old(out)@ + be_bytes(x as nat, n as nat),
    decreases n,
{
    if n > 0 {
        push_be(out, x / 256, n - 1);
        out.push((x % 256) as u8);
        proof {
            assert((x / 256) as nat == (x as nat) / 256);
        }
    }
}

/// Read the big-endian integer stored in `s[start..start + n]`.
pub fn read_be(s: &[u8], start: usize, n: usize) -> (v: u64)
    requires
        n <= 8,
        start + n <= s@.len(),
    ensures
        v as nat == be_value(s@.subrange(start as int, start + n)),
{
    let mut v: u64 = 0;
    let mut i: usize = 0;
    while i < n
        invariant
            n <= 8,
            start + n <= s.len(),
            i <= n,
            v as nat == be_value(s@.subrange(start as int, start + i)),
        decreases n - i,
    {
        proof {
            lemma_be_value_bound(s@.subrange(start as int, start + i));
            lemma_pow256_values();
            lemma_pow256_le(i as nat, 7);
            assert(s@.subrange(start as int, start + i + 1).drop_last() =~= s@.subrange(
                start as int,
                start + i,
            ));
        }
        v = v * 256 + s[start + i] as u64;
        i = i + 1;
    }
    v
}

pub proof fn lemma_pow256_le(a: nat, b: nat)
    requires
        a <= b,
    ensures
        pow256(a) <= pow256(b),
    decreases b,
{
    if a < b {
        lemma_pow256_le(a, (b - 1) as nat);
        lemma_pow256_positive((b - 1) as nat);
    }
}

// ---------------------------------------------------------------------------
// VAR-NUMBER
// ---------------------------------------------------------------------------

/// NDN VAR-NUMBER encoding (shortest form).
pub open spec fn varnum_encode(x: u64) -> Seq<u8> {
    if x < 253 {
        seq![x as u8]
    } else if x <= 0xFFFF {
        seq![253u8] + be_bytes(x as nat, 2)
    } else if x <= 0xFFFF_FFFF {
        seq![254u8] + be_bytes(x as nat, 4)
    } else {
        seq![255u8] + be_bytes(x as nat, 8)
    }
}

/// Width in bytes of the integer that follows a VAR-NUMBER's first byte.
pub open spec fn varnum_width(first: u8) -> nat {
    if first < 253 {
        0
    } else if first == 253 {
        2
    } else if first == 254 {
        4
    } else {
        8
    }
}

/// Parse a VAR-NUMBER at the start of `s`: its value and the bytes it takes.
pub open spec fn varnum_parse(s: Seq<u8>) -> Option<(u64, nat)> {
    if s.len() == 0 {
        None
    } else if s[0] < 253 {
        Some((s[0] as u64, 1))
    } else if s.len() < 1 + varnum_width(s[0]) {
        None
    } else {
        Some((be_value(s.subrange(1, 1 + varnum_width(s[0]) as int)) as u64, 1 + varnum_width(s[0])))
    }
}

/// Reading back an encoded VAR-NUMBER yields the number and its length,
/// whatever follows it.
pub proof fn lemma_varnum_roundtrip(x: u64, rest: Seq<u8>)
    ensures
        varnum_parse(varnum_encode(x) + rest) == Some((x, varnum_encode(x).len())),
        1 <= varnum_encode(x).len() <= 9,
{
    lemma_pow256_values();
    let e = varnum_encode(x);
    let s = e + rest;
    if x < 253 {
    } else {
        let n: nat = if x <= 0xFFFF {
            2
        } else if x <= 0xFFFF_FFFF {
            4
        } else {
            8
        };
        lemma_be_roundtrip(x as nat, n);
        assert(s.subrange(1, 1 + n as int) =~= be_bytes(x as nat, n));
    }
}

pub fn write_varnum(out: &mut Vec<u8>, x: u64)
    ensures
        final(out)@ == old(out)@ + varnum_encode(x),
{
    if x < 253 {
        out.push(x as u8);
        proof {
            assert(final(out)@ =~= old(out)@ + varnum_encode(x));
        }
    } else if x <= 0xFFFF {
        out.push(253u8);
        push_be(out, x, 2);
        proof {
            assert(final(out)@ =~= old(out)@ + varnum_encode(x));
        }
    } else if x <= 0xFFFF_FFFF {
        out.push(254u8);
        push_be(out, x, 4);
        proof {
            assert(final(out)@ =~= old(out)@ + varnum_encode(x));
        }
    } else {
        out.push(255u8);
        push_be(out, x, 8);
        proof {
            assert(final(out)@ =~= old(out)@ + varnum_encode(x));
        }
    }
}

/// Parse a VAR-NUMBER at `s[pos..]`; returns the value and the position after it.
pub fn read_varnum(s: &[u8], pos: usize) -> (res: Option<(u64, usize)>)
    requires
        pos <= s@.len(),
    ensures
        match varnum_parse(s@.skip(pos as int)) {
            None => res is None,
            Some((v, n)) => res matches Some((w, p)) && w == v && p == pos + n,
        },
        res matches Some((_, p)) ==> pos < p <= s@.len(),
{
    let ghost t = s@.skip(pos as int);
    if pos >= s.len() {
        return None;
    }
    let first = s[pos];
    assert(t[0] == first);
    if first < 253 {
        return Some((first as u64, pos + 1));
    }
    let w: usize = if first == 253 {
        2
    } else if first == 254 {
        4
    } else {
        8
    };
    if s.len() - pos - 1 < w {
        return None;
    }
    let v = read_be(s, pos + 1, w);
    proof {
        assert(t.subrange(1, 1 + w as int) =~= s@.subrange(pos + 1, pos + 1 + w));
    }
    Some((v, pos + 1 + w))
}

// ---------------------------------------------------------------------------
// TLV elements
// ---------------------------------------------------------------------------

/// The elements at the start of `s`, up to the first one that is malformed
/// or truncated, and whether there was such an element.
pub open spec fn elements_prefix(s: Seq<u8>) -> (Seq<(u64, Seq<u8>)>, bool)
    decreases s.len(),
{
    if s.len() == 0 {
        (Seq::empty(), false)
    } else {
        match tlv_parse(s) {
            None => (Seq::empty(), true),
            Some((t, v, n)) => if n == 0 || n > s.len() {
                (Seq::empty(), true)
            } else {
                let (rest, bad) = elements_prefix(s.skip(n as int));
                (seq![(t, v)] + rest, bad)
            },
        }
    }
}

/// The values of a list of elements.
pub open spec fn elements_view(els: Seq<(u64, Vec<u8>)>) -> Seq<(u64, Seq<u8>)> {
    els.map_values(|e: (u64, Vec<u8>)| (e.0, e.1@))
}

/// Split `s` into elements up to the first malformed one.
pub fn split_elements(s: &[u8]) -> (r: (Vec<(u64, Vec<u8>)>, bool))
    ensures
        (elements_view(r.0@), r.1) == elements_prefix(s@),
{
    let mut out: Vec<(u64, Vec<u8>)> = Vec::new();
    let mut pos: usize = 0;
    proof {
        assert(s@.skip(0) =~= s@);
        assert(elements_view(out@) =~= Seq::<(u64, Seq<u8>)>::empty());
    }
    while pos < s.len()
        invariant
            pos <= s@.len(),
            ({
                let (rest, bad) = elements_prefix(s@.skip(pos as int));
                elements_prefix(s@) == (elements_view(out@) + rest, bad)
            }),
        decreases s@.len() - pos,
    {
        let ghost t = s@.skip(pos as int);
        let sp = match read_tlv(s, pos) {
            None => {
                proof {
                    assert(elements_prefix(t) == (Seq::<(u64, Seq<u8>)>::empty(), true));
                    assert(elements_view(out@) + Seq::<(u64, Seq<u8>)>::empty() =~= elements_view(out@));
                }
                return (out, true);
            },
            Some(sp) => sp,
        };
        proof {
            lemma_tlv_parse_progress(t);
            let (tt, v, n) = tlv_parse(t).unwrap();
            assert(t.skip(n as int) =~= s@.skip(sp.value_end as int));
        }
        let v = slice_to_vec(s, sp.value_start, sp.value_end);
        let ghost before = elements_view(out@);
        out.push((sp.typ, v));
        proof {
            assert(elements_view(out@) =~= before.push((sp.typ, v@)));
            let (rest, bad) = elements_prefix(s@.skip(sp.value_end as int));
            assert(before + (seq![(sp.typ, v@)] + rest) =~= before.push((sp.typ, v@)) + rest);
        }
        pos = sp.value_end;
    }
    proof {
        assert(s@.skip(pos as int).len() == 0);
        assert(elements_view(out@) + Seq::<(u64, Seq<u8>)>::empty() =~= elements_view(out@));
    }
    (out, false)
}

/// The wire form of a TLV element.
pub open spec fn tlv_encode(t: u64, v: Seq<u8>) -> Seq<u8> {
    varnum_encode(t) + varnum_encode(v.len() as u64) + v
}

/// Parse one TLV element at the start of `s`: its type, its value, and the
/// number of bytes the whole element takes.
pub open spec fn tlv_parse(s: Seq<u8>) -> Option<(u64, Seq<u8>, nat)> {
    match varnum_parse(s) {
        None => None,
        Some((t, n1)) => match varnum_parse(s.skip(n1 as int)) {
            None => None,
            Some((l, n2)) => if s.len() < n1 + n2 + l {
                None
            } else {
                Some((t, s.subrange((n1 + n2) as int, (n1 + n2 + l) as int), (n1 + n2 + l) as nat))
            },
        },
    }
}

/// Reading back an encoded element yields its type and value, whatever
/// follows it.
pub proof fn lemma_tlv_roundtrip(t: u64, v: Seq<u8>, rest: Seq<u8>)
    requires
        v.len() <= u64::MAX,
    ensures
        tlv_parse(tlv_encode(t, v) + rest) == Some((t, v, tlv_encode(t, v).len())),
{
    let et = varnum_encode(t);
    let el = varnum_encode(v.len() as u64);
    let s = tlv_encode(t, v) + rest;
    lemma_varnum_roundtrip(t, el + v + rest);
    assert(s =~= et + (el + v + rest));
    lemma_varnum_roundtrip(v.len() as u64, v + rest);
    assert(s.skip(et.len() as int) =~= el + (v + rest));
    assert(s.subrange((et.len() + el.len()) as int, (et.len() + el.len() + v.len()) as int) =~= v);
}

/// Append a TLV element to `out`.
pub fn write_tlv(out: &mut Vec<u8>, t: u64, v: &[u8])
    ensures
        final(out)@ == old(out)@ + tlv_encode(t, v@),
{
    write_varnum(out, t);
    write_varnum(out, v.len() as u64);
    let ghost mid = out@;
    let mut i: usize = 0;
    while i < v.len()
        invariant
            i <= v@.len(),
            out@ == mid + v@.subrange(0, i as int),
        decreases v@.len() - i,
    {
        out.push(v[i]);
        i = i + 1;
        proof {
            assert(out@ =~= mid + v@.subrange(0, i as int));
        }
    }
    proof {
        assert(v@.subrange(0, v@.len() as int) =~= v@);
        assert(final(out)@ =~= old(out)@ + tlv_encode(t, v@));
    }
}

/// Append the bytes of `v` to `out`.
pub fn append_bytes(out: &mut Vec<u8>, v: &[u8])
    ensures
        final(out)@ == old(out)@ + v@,
{
    let ghost start = out@;
    let mut i: usize = 0;
    while i < v.len()
        invariant
            i <= v@.len(),
            out@ == start + v@.subrange(0, i as int),
        decreases v@.len() - i,
    {
        out.push(v[i]);
        i = i + 1;
        proof {
            assert(out@ =~= start + v@.subrange(0, i as int));
        }
    }
    proof {
        assert(v@.subrange(0, v@.len() as int) =~= v@);
    }
}

/// Copy `s[start..end]` into a fresh vector.
pub fn slice_to_vec(s: &[u8], start: usize, end: usize) -> (r: Vec<u8>)
    requires
        start <= end <= s@.len(),
    ensures
        r@ == s@.subrange(start as int, end as int),
{
    let mut r: Vec<u8> = Vec::new();
    let mut i = start;
    while i < end
        invariant
            start <= i <= end <= s@.len(),
            r@ == s@.subrange(start as int, i as int),
        decreases end - i,
    {
        r.push(s[i]);
        i = i + 1;
        proof {
            assert(r@ =~= s@.subrange(start as int, i as int));
        }
    }
    r
}

/// A parsed element header: the element's type and where its value lies.
pub struct TlvSpan {
    pub typ: u64,
    pub value_start: usize,
    pub value_end: usize,
}

/// Parse one element at `s[pos..]`.
pub fn read_tlv(s: &[u8], pos: usize) -> (res: Option<TlvSpan>)
    requires
        pos <= s@.len(),
    ensures
        match tlv_parse(s@.skip(pos as int)) {
            None => res is None,
            Some((t, v, n)) => res matches Some(sp) && sp.typ == t && pos <= sp.value_start
                <= sp.value_end && sp.value_end == pos + n && s@.subrange(
                sp.value_start as int,
                sp.value_end as int,
            ) == v,
        },
{
    let ghost t = s@.skip(pos as int);
    match read_varnum(s, pos) {
        None => {
            assert(tlv_parse(t) is None);
            None
        },
        Some((typ, p1)) => {
            proof {
                assert(s@.skip(p1 as int) =~= t.skip((p1 - pos) as int));
            }
            match read_varnum(s, p1) {
                None => {
                    assert(varnum_parse(t) == Some((typ, (p1 - pos) as nat)));
                    assert(varnum_parse(t.skip((p1 - pos) as int)) is None);
                    assert(tlv_parse(t) is None);
                    None
                },
                Some((len, p2)) => {
                    if ((s.len() - p2) as u64) < len {
                        assert(tlv_parse(t) is None);
                        None
                    } else {
                        let end = p2 + len as usize;
                        proof {
                            assert(tlv_parse(t) == Some((typ, t.subrange((p2 - pos) as int, (end - pos) as int), (end - pos) as nat)));
                            assert(s@.subrange(p2 as int, end as int) =~= t.subrange(
                                (p2 - pos) as int,
                                (end - pos) as int,
                            ));
                        }
                        Some(TlvSpan { typ, value_start: p2, value_end: end })
                    }
                },
            }
        },
    }
}

// ---------------------------------------------------------------------------
// Element sequences
// ---------------------------------------------------------------------------

/// Split `s` into a sequence of elements; `None` if some element is
/// malformed or truncated.
pub open spec fn tlv_elements(s: Seq<u8>) -> Option<Seq<(u64, Seq<u8>)>>
    decreases s.len(),
{
    if s.len() == 0 {
        Some(Seq::empty())
    } else {
        match tlv_parse(s) {
            None => None,
            Some((t, v, n)) => if n == 0 || n > s.len() {
                None
            } else {
                match tlv_elements(s.skip(n as int)) {
                    None => None,
                    Some(rest) => Some(seq![(t, v)] + rest),
                }
            },
        }
    }
}

/// The concatenated wire form of a sequence of elements.
pub open spec fn tlv_encode_all(els: Seq<(u64, Seq<u8>)>) -> Seq<u8>
    decreases els.len(),
{
    if els.len() == 0 {
        Seq::empty()
    } else {
        tlv_encode(els[0].0, els[0].1) + tlv_encode_all(els.drop_first())
    }
}

pub proof fn lemma_tlv_parse_progress(s: Seq<u8>)
    ensures
        tlv_parse(s) matches Some((t, v, n)) ==> 2 <= n <= s.len(),
{
}

/// Splitting an encoded sequence of elements gives the sequence back.
pub proof fn lemma_tlv_elements_roundtrip(els: Seq<(u64, Seq<u8>)>)
    requires
        forall|i: int| 0 <= i < els.len() ==> #[trigger] els[i].1.len() <= u64::MAX,
    ensures
        tlv_elements(tlv_encode_all(els)) == Some(els),
    decreases els.len(),
{
    if els.len() > 0 {
        let head = tlv_encode(els[0].0, els[0].1);
        let tail = tlv_encode_all(els.drop_first());
        assert(forall|i: int|
            0 <= i < els.drop_first().len() ==> #[trigger] els.drop_first()[i] == els[i + 1]);
        lemma_tlv_elements_roundtrip(els.drop_first());
        lemma_tlv_roundtrip(els[0].0, els[0].1, tail);
        lemma_varnum_roundtrip(els[0].0, Seq::empty());
        assert((head + tail).skip(head.len() as int) =~= tail);
        assert(seq![(els[0].0, els[0].1)] + els.drop_first() =~= els);
    }
}

/// Splitting an encoded sequence of elements finds every element and no
/// malformed one.
pub proof fn lemma_elements_prefix_roundtrip(els: Seq<(u64, Seq<u8>)>)
    requires
        forall|i: int| 0 <= i < els.len() ==> #[trigger] els[i].1.len() <= u64::MAX,
    ensures
        elements_prefix(tlv_encode_all(els)) == (els, false),
    decreases els.len(),
{
    if els.len() > 0 {
        let head = tlv_encode(els[0].0, els[0].1);
        let tail = tlv_encode_all(els.drop_first());
        assert(forall|i: int|
            0 <= i < els.drop_first().len() ==> #[trigger] els.drop_first()[i] == els[i + 1]);
        lemma_elements_prefix_roundtrip(els.drop_first());
        lemma_tlv_roundtrip(els[0].0, els[0].1, tail);
        lemma_varnum_roundtrip(els[0].0, Seq::empty());
        assert((head + tail).skip(head.len() as int) =~= tail);
        assert(seq![(els[0].0, els[0].1)] + els.drop_first() =~= els);
    }
}

/// Each value of a sequence of elements is no longer than its encoding.
pub proof fn lemma_encode_all_member_len(els: Seq<(u64, Seq<u8>)>, i: int)
    requires
        0 <= i < els.len(),
    ensures
        els[i].1.len() + 2 <= tlv_encode_all(els).len(),
    decreases els.len(),
{
    lemma_varnum_len(els[0].0);
    if i > 0 {
        lemma_encode_all_member_len(els.drop_first(), i - 1);
    }
}

pub proof fn lemma_varnum_len(x: u64)
    ensures
        1 <= varnum_encode(x).len() <= 9,
{
    lemma_varnum_roundtrip(x, Seq::empty());
}

/// Errors of the strict, in-order TLV decoders.
#[derive(Debug, Clone, Copy, PartialEq, Eq)]
pub enum TlvCodecError {
    /// The input ended inside an element.
    Truncated,
    /// An element of another type stood where `expected` was required.
    UnexpectedType { expected: u64, found: u64 },
    /// The value of an element of this type is malformed.
    MalformedField(u64),
    /// An enumeration code or version that is not known.
    UnrecognizedVariant(u8),
}

/// Read an element that must have type `typ` at the start of `s`: its value
/// and the bytes it takes. The type is checked before the length is read.
pub open spec fn expect_tlv(s: Seq<u8>, typ: u64) -> Result<(Seq<u8>, nat), TlvCodecError> {
    match varnum_parse(s) {
        None => Err(TlvCodecError::Truncated),
        Some((t, n1)) => if t != typ {
            Err(TlvCodecError::UnexpectedType { expected: typ, found: t })
        } else {
            match varnum_parse(s.skip(n1 as int)) {
                None => Err(TlvCodecError::Truncated),
                Some((l, n2)) => if s.len() < n1 + n2 + l {
                    Err(TlvCodecError::Truncated)
                } else {
                    Ok((s.subrange((n1 + n2) as int, (n1 + n2 + l) as int), (n1 + n2 + l) as nat))
                },
            }
        },
    }
}

/// An encoded element is read back by `expect_tlv` of its own type.
pub proof fn lemma_expect_encoded(t: u64, v: Seq<u8>, rest: Seq<u8>)
    requires
        v.len() <= u64::MAX,
    ensures
        expect_tlv(tlv_encode(t, v) + rest, t) == Ok::<(Seq<u8>, nat), TlvCodecError>((v, tlv_encode(t, v).len())),
        tlv_encode(t, v).len() >= 2,
{
    let et = varnum_encode(t);
    let el = varnum_encode(v.len() as u64);
    let s = tlv_encode(t, v) + rest;
    lemma_varnum_roundtrip(t, el + v + rest);
    assert(s =~= et + (el + v + rest));
    lemma_varnum_roundtrip(v.len() as u64, v + rest);
    assert(s.skip(et.len() as int) =~= el + (v + rest));
    assert(s.subrange((et.len() + el.len()) as int, (et.len() + el.len() + v.len()) as int) =~= v);
}

/// Read an element that must have type `typ` at `s[pos..]`; returns where
/// its value lies.
pub fn read_expected(s: &[u8], pos: usize, typ: u64) -> (r: Result<(usize, usize), TlvCodecError>)
    requires
        pos <= s@.len(),
    ensures
        match expect_tlv(s@.skip(pos as int), typ) {
            Ok((v, n)) => r matches Ok((a, b)) && pos <= a <= b && b == pos + n && s@.subrange(a as int, b as int) == v,
            Err(e) => r == Err::<(usize, usize), TlvCodecError>(e),
        },
{
    let ghost t = s@.skip(pos as int);
    let (found, p1) = match read_varnum(s, pos) {
        Some(x) => x,
        None => return Err(TlvCodecError::Truncated),
    };
    if found != typ {
        return Err(TlvCodecError::UnexpectedType { expected: typ, found });
    }
    proof {
        assert(s@.skip(p1 as int) =~= t.skip((p1 - pos) as int));
    }
    let (len, p2) = match read_varnum(s, p1) {
        Some(x) => x,
        None => return Err(TlvCodecError::Truncated),
    };
    if ((s.len() - p2) as u64) < len {
        return Err(TlvCodecError::Truncated);
    }
    let end = p2 + len as usize;
    proof {
        assert(s@.subrange(p2 as int, end as int) =~= t.subrange((p2 - pos) as int, (end - pos) as int));
    }
    Ok((p2, end))
}

/// Walks the elements of `s[start..end]` one at a time.
pub struct TlvCursor {
    pub pos: usize,
    pub end: usize,
}

} // verus!
