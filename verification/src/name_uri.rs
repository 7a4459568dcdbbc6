//! The NDN URI form of names (`/a/b/v=1`), with its parser, and the law that
//! parsing the URI of any name gives that name back.

use vstd::prelude::*;

use crate::name::{ComponentView, Name, NameComponent, GENERIC_COMPONENT};
use crate::text::{ascii_chars, string_from_ascii, utf8_bytes};

verus! {

pub open spec fn is_digit(b: u8) -> bool {
    0x30 <= b <= 0x39
}

/// Bytes that appear unescaped in a component: `A-Z a-z 0-9 - . _ ~`.
pub open spec fn is_unreserved(b: u8) -> bool {
    ||| 0x41 <= b <= 0x5A
    ||| 0x61 <= b <= 0x7A
    ||| is_digit(b)
    ||| b == 0x2D
    ||| b == 0x2E
    ||| b == 0x5F
    ||| b == 0x7E
}

/// Upper-case hex digit of a nibble.
pub open spec fn hex_upper(n: u8) -> u8 {
    if n < 10 {
        (0x30 + n) as u8
    } else {
        (0x41 + n - 10) as u8
    }
}

/// Value of a hex digit (either case), if it is one.
pub open spec fn hex_value(b: u8) -> Option<u8> {
    if 0x30 <= b <= 0x39 {
        Some((b - 0x30) as u8)
    } else if 0x41 <= b <= 0x46 {
        Some((b - 0x41 + 10) as u8)
    } else if 0x61 <= b <= 0x66 {
        Some((b - 0x61 + 10) as u8)
    } else {
        None
    }
}

/// Percent-escape every byte that is not unreserved.
pub open spec fn escape(v: Seq<u8>) -> Seq<u8>
    decreases v.len(),
{
    if v.len() == 0 {
        Seq::empty()
    } else {
        let b = v[0];
        let head = if is_unreserved(b) {
            seq![b]
        } else {
            seq![0x25u8, hex_upper(b / 16), hex_upper(b % 16)]
        };
        head + escape(v.drop_first())
    }
}

/// Undo `escape`; `None` on a malformed `%` escape.
pub open spec fn unescape(t: Seq<u8>) -> Option<Seq<u8>>
    decreases t.len(),
{
    if t.len() == 0 {
        Some(Seq::empty())
    } else if t[0] == 0x25 {
        if t.len() < 3 {
            None
        } else {
            match (hex_value(t[1]), hex_value(t[2])) {
                (Some(h), Some(l)) => match unescape(t.skip(3)) {
                    None => None,
                    Some(rest) => Some(seq![(h * 16 + l) as u8] + rest),
                },
                _ => None,
            }
        }
    } else {
        match unescape(t.drop_first()) {
            None => None,
            Some(rest) => Some(seq![t[0]] + rest),
        }
    }
}

pub open spec fn all_dots(v: Seq<u8>) -> bool {
    forall|i: int| 0 <= i < v.len() ==> v[i] == 0x2E
}

pub open spec fn three_dots() -> Seq<u8> {
    seq![0x2Eu8, 0x2Eu8, 0x2Eu8]
}

/// The text of a component value: escaped, or, when it is only periods
/// (or empty), three more periods in front.
pub open spec fn value_text(v: Seq<u8>) -> Seq<u8> {
    if all_dots(v) {
        three_dots() + v
    } else {
        escape(v)
    }
}

pub open spec fn value_parse(t: Seq<u8>) -> Option<Seq<u8>> {
    if all_dots(t) {
        if t.len() < 3 {
            None
        } else {
            Some(t.skip(3))
        }
    } else {
        unescape(t)
    }
}

/// Decimal digits of `n`.
pub open spec fn decimal(n: nat) -> Seq<u8>
    decreases n,
{
    if n < 10 {
        seq![(0x30 + n) as u8]
    } else {
        decimal(n / 10).push((0x30 + n % 10) as u8)
    }
}

/// The number a string of decimal digits denotes.
pub open spec fn digits_value(s: Seq<u8>) -> nat
    decreases s.len(),
{
    if s.len() == 0 {
        0
    } else {
        digits_value(s.drop_last()) * 10 + (s.last() - 0x30) as nat
    }
}

pub open spec fn all_digits(s: Seq<u8>) -> bool {
    forall|i: int| 0 <= i < s.len() ==> is_digit(#[trigger] s[i])
}

/// Position of the first `b` in `s`, or `s.len()`.
pub open spec fn first_index(s: Seq<u8>, b: u8) -> nat
    decreases s.len(),
{
    if s.len() == 0 {
        0
    } else if s[0] == b {
        0
    } else {
        1 + first_index(s.drop_first(), b)
    }
}

/// The URI text of one component: `<value>` for a generic component,
/// `<type>=<value>` otherwise.
pub open spec fn component_text(c: ComponentView) -> Seq<u8> {
    if c.0 == GENERIC_COMPONENT {
        value_text(c.1)
    } else {
        decimal(c.0 as nat) + seq![0x3Du8] + value_text(c.1)
    }
}

/// Parse the URI text of one component.
pub open spec fn component_parse(seg: Seq<u8>) -> Option<ComponentView> {
    let e = first_index(seg, 0x3D);
    let digits = seg.subrange(0, e as int);
    if e < seg.len() && e > 0 && all_digits(digits) && digits_value(digits) <= u64::MAX {
        match value_parse(seg.skip(e as int + 1)) {
            None => None,
            Some(v) => Some((digits_value(digits) as u64, v)),
        }
    } else {
        match value_parse(seg) {
            None => None,
            Some(v) => Some((GENERIC_COMPONENT, v)),
        }
    }
}

/// `/c1/c2/...` without the root special case.
pub open spec fn uri_body(n: Seq<ComponentView>) -> Seq<u8>
    decreases n.len(),
{
    if n.len() == 0 {
        Seq::empty()
    } else {
        seq![0x2Fu8] + component_text(n[0]) + uri_body(n.drop_first())
    }
}

/// The URI of a name; the root is `/`.
pub open spec fn name_uri(n: Seq<ComponentView>) -> Seq<u8> {
    if n.len() == 0 {
        seq![0x2Fu8]
    } else {
        uri_body(n)
    }
}

/// Parse a URI: `/`-separated component texts; empty segments are skipped.
pub open spec fn uri_parse(s: Seq<u8>) -> Option<Seq<ComponentView>>
    decreases s.len(),
{
    if s.len() == 0 {
        Some(Seq::empty())
    } else if s[0] == 0x2F {
        uri_parse(s.drop_first())
    } else {
        let k = first_index(s, 0x2F);
        if k == 0 || k > s.len() {
            None
        } else {
            match component_parse(s.subrange(0, k as int)) {
                None => None,
                Some(c) => match uri_parse(s.skip(k as int)) {
                    None => None,
                    Some(rest) => Some(seq![c] + rest),
                },
            }
        }
    }
}

// ---------------------------------------------------------------------------
// Lemmas
// ---------------------------------------------------------------------------

proof fn lemma_first_index_bound(s: Seq<u8>, b: u8)
    ensures
        first_index(s, b) <= s.len(),
        first_index(s, b) < s.len() ==> s[first_index(s, b) as int] == b,
        forall|i: int| 0 <= i < first_index(s, b) ==> s[i] != b,
    decreases s.len(),
{
    if s.len() > 0 && s[0] != b {
        lemma_first_index_bound(s.drop_first(), b);
        assert forall|i: int| 0 <= i < first_index(s, b) implies s[i] != b by {
            if i > 0 {
                assert(s[i] == s.drop_first()[i - 1]);
            }
        }
    }
}

proof fn lemma_first_index_absent_then(a: Seq<u8>, rest: Seq<u8>, b: u8)
    requires
        forall|i: int| 0 <= i < a.len() ==> a[i] != b,
    ensures
        first_index(a + rest, b) == a.len() + first_index(rest, b),
    decreases a.len(),
{
    if a.len() > 0 {
        lemma_first_index_absent_then(a.drop_first(), rest, b);
        assert((a + rest).drop_first() =~= a.drop_first() + rest);
    } else {
        assert(a + rest =~= rest);
    }
}

proof fn lemma_hex_roundtrip(b: u8)
    ensures
        hex_value(hex_upper(b / 16)) == Some(b / 16),
        hex_value(hex_upper(b % 16)) == Some(b % 16),
        ((b / 16) * 16 + b % 16) as u8 == b,
        hex_upper(b / 16) != 0x2F && hex_upper(b / 16) != 0x3D && hex_upper(b / 16) != 0x2E,
        hex_upper(b % 16) != 0x2F && hex_upper(b % 16) != 0x3D && hex_upper(b % 16) != 0x2E,
{
}

/// Escaped text holds neither `/` nor `=`, and holds a non-period byte
/// when the value does.
proof fn lemma_escape_shape(v: Seq<u8>)
    ensures
        forall|i: int|
            0 <= i < escape(v).len() ==> escape(v)[i] != 0x2F && escape(v)[i] != 0x3D,
        !all_dots(v) ==> !all_dots(escape(v)),
        unescape(escape(v)) == Some(v),
    decreases v.len(),
{
    if v.len() > 0 {
        let b = v[0];
        lemma_escape_shape(v.drop_first());
        lemma_hex_roundtrip(b);
        let head = if is_unreserved(b) {
            seq![b]
        } else {
            seq![0x25u8, hex_upper(b / 16), hex_upper(b % 16)]
        };
        let e = escape(v);
        assert(e == head + escape(v.drop_first()));
        assert forall|i: int| 0 <= i < e.len() implies e[i] != 0x2F && e[i] != 0x3D by {
            if i >= head.len() {
                assert(e[i] == escape(v.drop_first())[i - head.len()]);
            }
        }
        if !all_dots(v) {
            if b != 0x2E {
                assert(e[0] != 0x2E);
            } else {
                let j = choose|j: int| 0 <= j < v.len() && v[j] != 0x2E;
                assert(v.drop_first()[j - 1] != 0x2E);
                let k = choose|k: int|
                    0 <= k < escape(v.drop_first()).len() && escape(v.drop_first())[k] != 0x2E;
                assert(e[k + head.len()] != 0x2E);
            }
        }
        if is_unreserved(b) {
            assert(e.drop_first() =~= escape(v.drop_first()));
            assert(seq![b] + v.drop_first() =~= v);
        } else {
            assert(e.skip(3) =~= escape(v.drop_first()));
            assert(seq![b] + v.drop_first() =~= v);
        }
    }
}

proof fn lemma_value_text(v: Seq<u8>)
    ensures
        value_parse(value_text(v)) == Some(v),
        forall|i: int|
            0 <= i < value_text(v).len() ==> value_text(v)[i] != 0x2F && value_text(v)[i]
                != 0x3D,
        value_text(v).len() > 0,
{
    lemma_escape_shape(v);
    if all_dots(v) {
        let t = three_dots() + v;
        assert(all_dots(t));
        assert(t.skip(3) =~= v);
    } else {
        assert(escape(v).len() > 0);
    }
}

proof fn lemma_decimal(n: nat)
    ensures
        all_digits(decimal(n)),
        decimal(n).len() > 0,
        digits_value(decimal(n)) == n,
    decreases n,
{
    if n < 10 {
        assert(decimal(n).drop_last() =~= Seq::<u8>::empty());
        assert(digits_value(decimal(n).drop_last()) == 0);
    } else {
        lemma_decimal(n / 10);
        let d = decimal(n);
        assert(d.drop_last() =~= decimal(n / 10));
        assert(d.last() == (0x30 + n % 10) as u8);
        assert(digits_value(d) == digits_value(decimal(n / 10)) * 10 + (n % 10));
        assert(n == (n / 10) * 10 + n % 10);
        assert forall|i: int| 0 <= i < d.len() implies is_digit(#[trigger] d[i]) by {
            if i < d.len() - 1 {
                assert(d[i] == decimal(n / 10)[i]);
            }
        }
    }
}

proof fn lemma_component_roundtrip(c: ComponentView)
    ensures
        component_parse(component_text(c)) == Some(c),
        forall|i: int|
            0 <= i < component_text(c).len() ==> component_text(c)[i] != 0x2F,
        component_text(c).len() > 0,
{
    let t = component_text(c);
    lemma_value_text(c.1);
    lemma_first_index_bound(t, 0x3D);
    if c.0 == GENERIC_COMPONENT {
        assert(first_index(t, 0x3D) == t.len()) by {
            lemma_first_index_absent_then(t, Seq::empty(), 0x3D);
            assert(t + Seq::<u8>::empty() =~= t);
        }
        assert(t.subrange(0, t.len() as int) =~= t);
    } else {
        let d = decimal(c.0 as nat);
        lemma_decimal(c.0 as nat);
        assert forall|i: int| 0 <= i < d.len() implies d[i] != 0x3D by {
            assert(is_digit(d[i]));
        }
        lemma_first_index_absent_then(d, seq![0x3Du8] + value_text(c.1), 0x3D);
        assert(t =~= d + (seq![0x3Du8] + value_text(c.1)));
        assert(first_index(t, 0x3D) == d.len());
        assert(t.subrange(0, d.len() as int) =~= d);
        assert(t.skip(d.len() as int + 1) =~= value_text(c.1));
        assert forall|i: int| 0 <= i < t.len() implies t[i] != 0x2F by {
            if i < d.len() {
                assert(is_digit(d[i]));
            } else if i > d.len() {
                assert(t[i] == value_text(c.1)[i - d.len() - 1]);
            }
        }
    }
}

proof fn lemma_uri_body_roundtrip(n: Seq<ComponentView>)
    ensures
        uri_parse(uri_body(n)) == Some(n),
        n.len() > 0 ==> uri_body(n)[0] == 0x2F,
    decreases n.len(),
{
    if n.len() > 0 {
        lemma_uri_body_roundtrip(n.drop_first());
        lemma_component_roundtrip(n[0]);
        let t = component_text(n[0]);
        let rest = uri_body(n.drop_first());
        let s = uri_body(n);
        assert(s.drop_first() =~= t + rest);
        lemma_first_index_absent_then(t, rest, 0x2F);
        lemma_first_index_bound(rest, 0x2F);
        if rest.len() > 0 {
            assert(first_index(rest, 0x2F) == 0);
        } else {
            assert(first_index(rest, 0x2F) == 0);
        }
        assert((t + rest).subrange(0, t.len() as int) =~= t);
        assert((t + rest).skip(t.len() as int) =~= rest);
        assert(t[0] != 0x2F);
        assert((t + rest)[0] != 0x2F);
        assert(first_index(t + rest, 0x2F) == t.len());
        assert(uri_parse(t + rest) == Some(seq![n[0]] + n.drop_first()));
        assert(s[0] == 0x2F);
        assert(uri_parse(s) == uri_parse(s.drop_first()));
        assert(seq![n[0]] + n.drop_first() =~= n);
    }
}

/// Parsing the URI of any name gives that name back.
pub proof fn lemma_name_uri_roundtrip(n: Seq<ComponentView>)
    ensures
        uri_parse(name_uri(n)) == Some(n),
{
    if n.len() == 0 {
        assert(seq![0x2Fu8].drop_first() =~= Seq::<u8>::empty());
        assert(uri_parse(Seq::<u8>::empty()) == Some(Seq::<ComponentView>::empty()));
        assert(n =~= Seq::<ComponentView>::empty());
    } else {
        lemma_uri_body_roundtrip(n);
    }
}

// ---------------------------------------------------------------------------
// Executable
// ---------------------------------------------------------------------------

fn hex_upper_exec(n: u8) -> (r: u8)
    requires
        n < 16,
    ensures
        r == hex_upper(n),
{
    if n < 10 {
        0x30 + n
    } else {
        0x41 + n - 10
    }
}

fn hex_value_exec(b: u8) -> (r: Option<u8>)
    ensures
        r == hex_value(b),
{
    if 0x30 <= b && b <= 0x39 {
        Some(b - 0x30)
    } else if 0x41 <= b && b <= 0x46 {
        Some(b - 0x41 + 10)
    } else if 0x61 <= b && b <= 0x66 {
        Some(b - 0x61 + 10)
    } else {
        None
    }
}

fn is_unreserved_exec(b: u8) -> (r: bool)
    ensures
        r == is_unreserved(b),
{
    (0x41 <= b && b <= 0x5A) || (0x61 <= b && b <= 0x7A) || (0x30 <= b && b <= 0x39) || b == 0x2D
        || b == 0x2E || b == 0x5F || b == 0x7E
}

proof fn lemma_escape_append(a: Seq<u8>, b: u8)
    ensures
        escape(a.push(b)) == escape(a) + escape(seq![b]),
    decreases a.len(),
{
    if a.len() > 0 {
        lemma_escape_append(a.drop_first(), b);
        assert(a.push(b).drop_first() =~= a.drop_first().push(b));
        assert(escape(a.push(b)) =~= escape(a) + escape(seq![b]));
    } else {
        assert(a.push(b) =~= seq![b]);
        assert(escape(a) =~= Seq::<u8>::empty());
        assert(escape(a.push(b)) =~= escape(a) + escape(seq![b]));
    }
}

fn push_escaped(out: &mut Vec<u8>, v: &[u8])
    ensures
        final(out)@ == old(out)@ + escape(v@),
{
    let ghost start = out@;
    let mut i: usize = 0;
    proof {
        assert(escape(v@.subrange(0, 0)) =~= Seq::<u8>::empty());
        assert(out@ =~= start + escape(v@.subrange(0, 0)));
    }
    while i < v.len()
        invariant
            i <= v@.len(),
            out@ == start + escape(v@.subrange(0, i as int)),
        decreases v@.len() - i,
    {
        let b = v[i];
        let ghost hb = if is_unreserved(b) {
            seq![b]
        } else {
            seq![0x25u8, hex_upper(b / 16), hex_upper(b % 16)]
        };
        proof {
            lemma_escape_append(v@.subrange(0, i as int), b);
            assert(v@.subrange(0, i + 1) =~= v@.subrange(0, i as int).push(b));
            assert(seq![b].drop_first() =~= Seq::<u8>::empty());
            assert(escape(seq![b].drop_first()) =~= Seq::<u8>::empty());
            assert(escape(seq![b]) =~= hb + escape(seq![b].drop_first()));
            assert(escape(seq![b]) =~= hb);
        }
        let ghost before = out@;
        if is_unreserved_exec(b) {
            out.push(b);
        } else {
            out.push(0x25);
            out.push(hex_upper_exec(b / 16));
            out.push(hex_upper_exec(b % 16));
        }
        proof {
            assert(out@ =~= before + hb);
        }
        i = i + 1;
        proof {
            assert(out@ =~= start + escape(v@.subrange(0, i as int)));
        }
    }
    proof {
        assert(v@.subrange(0, v@.len() as int) =~= v@);
    }
}

fn is_all_dots(v: &[u8]) -> (r: bool)
    ensures
        r == all_dots(v@),
{
    let mut i: usize = 0;
    while i < v.len()
        invariant
            i <= v@.len(),
            forall|j: int| 0 <= j < i ==> v@[j] == 0x2E,
        decreases v@.len() - i,
    {
        if v[i] != 0x2E {
            return false;
        }
        i = i + 1;
    }
    true
}

fn push_decimal(out: &mut Vec<u8>, n: u64)
    ensures
        final(out)@ == old(out)@ + decimal(n as nat),
    decreases n,
{
    if n < 10 {
        out.push(0x30 + n as u8);
        proof {
            assert(final(out)@ =~= old(out)@ + decimal(n as nat));
        }
    } else {
        push_decimal(out, n / 10);
        out.push(0x30 + (n % 10) as u8);
        proof {
            assert(final(out)@ =~= old(out)@ + decimal(n as nat));
        }
    }
}

fn push_component_text(out: &mut Vec<u8>, c: &NameComponent)
    ensures
        final(out)@ == old(out)@ + component_text(c@),
{
    if c.typ != GENERIC_COMPONENT {
        push_decimal(out, c.typ);
        out.push(0x3D);
    }
    if is_all_dots(c.value.as_slice()) {
        out.push(0x2E);
        out.push(0x2E);
        out.push(0x2E);
        crate::tlv::append_bytes(out, c.value.as_slice());
    } else {
        push_escaped(out, c.value.as_slice());
    }
    proof {
        assert(final(out)@ =~= old(out)@ + component_text(c@));
    }
}

/// The URI bytes of `name`.
pub fn uri_bytes(name: &Name) -> (r: Vec<u8>)
    ensures
        r@ == name_uri(name@),
{
    let mut out: Vec<u8> = Vec::new();
    if name.components.len() == 0 {
        out.push(0x2F);
        proof {
            assert(out@ =~= name_uri(name@));
        }
        return out;
    }
    let mut i: usize = 0;
    proof {
        assert(name@.subrange(0, name@.len() as int) =~= name@);
        assert(out@ + uri_body(name@) =~= uri_body(name@));
    }
    while i < name.components.len()
        invariant
            i <= name@.len(),
            out@ + uri_body(name@.subrange(i as int, name@.len() as int)) == uri_body(name@),
        decreases name@.len() - i,
    {
        let ghost rest = name@.subrange(i as int, name@.len() as int);
        out.push(0x2F);
        push_component_text(&mut out, &name.components[i]);
        proof {
            assert(rest.drop_first() =~= name@.subrange(i + 1, name@.len() as int));
            assert(rest[0] == name.components@[i as int]@);
        }
        i = i + 1;
        proof {
            assert(out@ + uri_body(name@.subrange(i as int, name@.len() as int)) =~= uri_body(
                name@,
            ));
        }
    }
    proof {
        assert(name@.subrange(name@.len() as int, name@.len() as int) =~= Seq::<
            ComponentView,
        >::empty());
        assert(out@ =~= uri_body(name@));
    }
    out
}

/// Whether every byte is ASCII.
pub open spec fn all_ascii(s: Seq<u8>) -> bool {
    forall|i: int| 0 <= i < s.len() ==> s[i] < 128
}

proof fn lemma_escape_ascii(v: Seq<u8>)
    ensures
        all_ascii(escape(v)),
    decreases v.len(),
{
    if v.len() > 0 {
        lemma_escape_ascii(v.drop_first());
        let b = v[0];
        let head = if is_unreserved(b) {
            seq![b]
        } else {
            seq![0x25u8, hex_upper(b / 16), hex_upper(b % 16)]
        };
        assert forall|i: int| 0 <= i < escape(v).len() implies escape(v)[i] < 128 by {
            if i >= head.len() {
                assert(escape(v)[i] == escape(v.drop_first())[i - head.len()]);
            }
        }
    }
}

proof fn lemma_uri_ascii(n: Seq<ComponentView>)
    ensures
        all_ascii(uri_body(n)),
    decreases n.len(),
{
    if n.len() > 0 {
        lemma_uri_ascii(n.drop_first());
        let c = n[0];
        lemma_escape_ascii(c.1);
        let vt = value_text(c.1);
        assert(all_ascii(vt));
        let t = component_text(c);
        if c.0 != GENERIC_COMPONENT {
            lemma_decimal(c.0 as nat);
            let d = decimal(c.0 as nat);
            assert forall|i: int| 0 <= i < t.len() implies t[i] < 128 by {
                if i < d.len() {
                    assert(is_digit(d[i]));
                } else if i > d.len() {
                    assert(t[i] == vt[i - d.len() - 1]);
                }
            }
        }
        let s = uri_body(n);
        let rest = uri_body(n.drop_first());
        assert forall|i: int| 0 <= i < s.len() implies s[i] < 128 by {
            if i > 0 && i <= t.len() {
                assert(s[i] == t[i - 1]);
            } else if i > t.len() {
                assert(s[i] == rest[i - 1 - t.len()]);
            }
        }
    }
}

/// The URI of a name as text (ASCII).
pub open spec fn spec_uri_text(n: Seq<ComponentView>) -> Seq<char> {
    ascii_chars(name_uri(n))
}

impl Name {
    /// The canonical URI (`/a/b`, `/` for the root).
    pub fn to_uri(&self) -> (r: String)
        ensures
            r@ == spec_uri_text(self@),
    {
        let b = uri_bytes(self);
        proof {
            lemma_uri_ascii(self@);
            assert(all_ascii(seq![0x2Fu8]));
        }
        string_from_ascii(b.as_slice())
    }

    /// Parse a URI given as bytes.
    pub fn from_uri_bytes(s: &[u8]) -> (r: Option<Name>)
        ensures
            match uri_parse(s@) {
                None => r is None,
                Some(n) => r matches Some(m) && m@ == n,
            },
    {
        let mut comps: Vec<NameComponent> = Vec::new();
        let mut pos: usize = 0;
        proof {
            assert(s@.skip(0) =~= s@);
            match uri_parse(s@) {
                None => {},
                Some(rest) => {
                    assert(comps@.map_values(|c: NameComponent| c@) + rest =~= rest);
                },
            }
        }
        while pos < s.len()
            invariant
                pos <= s@.len(),
                uri_parse(s@) == match uri_parse(s@.skip(pos as int)) {
                    None => None,
                    Some(rest) => Some(comps@.map_values(|c: NameComponent| c@) + rest),
                },
            decreases s@.len() - pos,
        {
            let ghost t = s@.skip(pos as int);
            if s[pos] == 0x2F {
                proof {
                    assert(t.drop_first() =~= s@.skip(pos + 1));
                }
                pos = pos + 1;
            } else {
                let mut k = pos;
                while k < s.len() && s[k] != 0x2F
                    invariant
                        pos <= k <= s@.len(),
                        forall|j: int| pos <= j < k ==> s@[j] != 0x2F,
                    decreases s@.len() - k,
                {
                    k = k + 1;
                }
                proof {
                    let seg = s@.subrange(pos as int, k as int);
                    lemma_first_index_absent_then(seg, s@.skip(k as int), 0x2F);
                    assert(t =~= seg + s@.skip(k as int));
                    lemma_first_index_bound(s@.skip(k as int), 0x2F);
                    if k < s@.len() {
                        assert(s@.skip(k as int)[0] == 0x2F);
                    }
                    assert(first_index(t, 0x2F) == k - pos);
                    assert(t.subrange(0, (k - pos) as int) =~= seg);
                    assert(t.skip((k - pos) as int) =~= s@.skip(k as int));
                }
                match parse_component(s, pos, k) {
                    None => {
                        return None;
                    },
                    Some(c) => {
                        let ghost old_comps = comps@;
                        comps.push(c);
                        proof {
                            assert(comps@.map_values(|c: NameComponent| c@) =~= old_comps.map_values(
                                |c: NameComponent| c@,
                            ).push(c@));
                            match uri_parse(s@.skip(k as int)) {
                                None => {},
                                Some(rest) => {
                                    assert(old_comps.map_values(|c: NameComponent| c@) + (seq![c@]
                                        + rest) =~= comps@.map_values(|c: NameComponent| c@)
                                        + rest);
                                },
                            }
                        }
                        pos = k;
                    },
                }
            }
        }
        proof {
            assert(s@.skip(pos as int) =~= Seq::<u8>::empty());
            assert(comps@.map_values(|c: NameComponent| c@) + Seq::<ComponentView>::empty()
                =~= comps@.map_values(|c: NameComponent| c@));
        }
        Some(Name { components: comps })
    }

    /// Parse a URI (`/a/b`; a leading `/` is optional and empty segments are
    /// skipped).
    pub fn from_uri(s: &str) -> (r: Option<Name>)
        ensures
            match uri_parse(utf8_bytes(s@)) {
                None => r is None,
                Some(n) => r matches Some(m) && m@ == n,
            },
    {
        Name::from_uri_bytes(s.as_bytes())
    }
}

/// Parsing the text of `name.to_uri()` gives the name back.
pub proof fn lemma_to_uri_from_uri(n: Seq<ComponentView>)
    ensures
        uri_parse(utf8_bytes(spec_uri_text(n))) == Some(n),
{
    lemma_uri_ascii(n);
    assert(all_ascii(seq![0x2Fu8]));
    crate::text::lemma_ascii_roundtrip(name_uri(n));
    lemma_name_uri_roundtrip(n);
}

fn all_digits_exec(s: &[u8], start: usize, end: usize) -> (r: bool)
    requires
        start <= end <= s@.len(),
    ensures
        r == all_digits(s@.subrange(start as int, end as int)),
{
    let mut i = start;
    while i < end
        invariant
            start <= i <= end <= s@.len(),
            forall|j: int| start <= j < i ==> is_digit(s@[j]),
        decreases end - i,
    {
        if !(0x30 <= s[i] && s[i] <= 0x39) {
            proof {
                assert(!is_digit(s@.subrange(start as int, end as int)[i - start]));
            }
            return false;
        }
        i = i + 1;
    }
    true
}

/// The value of the decimal digits `s[start..end]`, if it fits in `u64`.
fn digits_to_u64(s: &[u8], start: usize, end: usize) -> (r: Option<u64>)
    requires
        start <= end <= s@.len(),
        all_digits(s@.subrange(start as int, end as int)),
    ensures
        match r {
            None => digits_value(s@.subrange(start as int, end as int)) > u64::MAX,
            Some(v) => v == digits_value(s@.subrange(start as int, end as int)),
        },
{
    let mut v: u64 = 0;
    let mut i = start;
    while i < end
        invariant
            start <= i <= end <= s@.len(),
            all_digits(s@.subrange(start as int, end as int)),
            v == digits_value(s@.subrange(start as int, i as int)),
        decreases end - i,
    {
        let ghost pre = s@.subrange(start as int, i as int);
        let ghost next = s@.subrange(start as int, i + 1);
        proof {
            assert(next.drop_last() =~= pre);
            assert(is_digit(s@.subrange(start as int, end as int)[i - start]));
        }
        let d = (s[i] - 0x30) as u64;
        if v > (u64::MAX - d) / 10 {
            proof {
                lemma_digits_value_monotone(s@.subrange(start as int, end as int), (i + 1 - start) as nat);
                assert(s@.subrange(start as int, end as int).subrange(0, i + 1 - start) =~= next);
                assert(v * 10 + d > u64::MAX) by (nonlinear_arith)
                    requires
                        v > (u64::MAX - d) / 10,
                        d < 10,
                ;
            }
            return None;
        }
        v = v * 10 + d;
        i = i + 1;
    }
    Some(v)
}

/// A longer digit string denotes a value at least that of its prefix.
proof fn lemma_digits_value_monotone(s: Seq<u8>, k: nat)
    requires
        k <= s.len(),
        all_digits(s),
    ensures
        digits_value(s) >= digits_value(s.subrange(0, k as int)),
    decreases s.len(),
{
    if k < s.len() {
        assert(s.drop_last() =~= s.subrange(0, s.len() - 1));
        assert(all_digits(s.drop_last()));
        lemma_digits_value_monotone(s.drop_last(), k);
        assert(s.drop_last().subrange(0, k as int) =~= s.subrange(0, k as int));
        assert(is_digit(s[s.len() - 1]));
        let a = digits_value(s.drop_last());
        assert(a * 10 + (s.last() - 0x30) as nat >= a) by (nonlinear_arith)
            requires
                a >= 0,
        ;
    } else {
        assert(s.subrange(0, k as int) =~= s);
    }
}

fn first_index_exec(s: &[u8], start: usize, end: usize, b: u8) -> (r: usize)
    requires
        start <= end <= s@.len(),
    ensures
        r == start + first_index(s@.subrange(start as int, end as int), b),
        start <= r <= end,
{
    let mut i = start;
    proof {
        lemma_first_index_bound(s@.subrange(start as int, end as int), b);
    }
    while i < end && s[i] != b
        invariant
            start <= i <= end <= s@.len(),
            forall|j: int| start <= j < i ==> s@[j] != b,
        decreases end - i,
    {
        i = i + 1;
    }
    proof {
        let seg = s@.subrange(start as int, end as int);
        let a = s@.subrange(start as int, i as int);
        let rest = s@.subrange(i as int, end as int);
        assert(seg =~= a + rest);
        lemma_first_index_absent_then(a, rest, b);
        if i < end {
            assert(rest[0] == b);
        }
    }
    i
}

/// Undo `escape` on `s[start..end]`.
fn unescape_exec(s: &[u8], start: usize, end: usize) -> (r: Option<Vec<u8>>)
    requires
        start <= end <= s@.len(),
    ensures
        match unescape(s@.subrange(start as int, end as int)) {
            None => r is None,
            Some(v) => r matches Some(w) && w@ == v,
        },
{
    let mut out: Vec<u8> = Vec::new();
    let mut i = start;
    proof {
        match unescape(s@.subrange(start as int, end as int)) {
            None => {},
            Some(v) => {
                assert(out@ + v =~= v);
            },
        }
    }
    while i < end
        invariant
            start <= i <= end <= s@.len(),
            unescape(s@.subrange(start as int, end as int)) == match unescape(
                s@.subrange(i as int, end as int),
            ) {
                None => None,
                Some(v) => Some(out@ + v),
            },
        decreases end - i,
    {
        let ghost t = s@.subrange(i as int, end as int);
        if s[i] == 0x25 {
            if end - i < 3 {
                return None;
            }
            match (hex_value_exec(s[i + 1]), hex_value_exec(s[i + 2])) {
                (Some(h), Some(l)) => {
                    let ghost before = out@;
                    out.push(h * 16 + l);
                    proof {
                        assert(t.skip(3) =~= s@.subrange(i + 3, end as int));
                        match unescape(s@.subrange(i + 3, end as int)) {
                            None => {},
                            Some(v) => {
                                assert(before + (seq![(h * 16 + l) as u8] + v) =~= out@ + v);
                            },
                        }
                    }
                    i = i + 3;
                },
                _ => {
                    return None;
                },
            }
        } else {
            let ghost before = out@;
            out.push(s[i]);
            proof {
                assert(t.drop_first() =~= s@.subrange(i + 1, end as int));
                match unescape(s@.subrange(i + 1, end as int)) {
                    None => {},
                    Some(v) => {
                        assert(before + (seq![t[0]] + v) =~= out@ + v);
                    },
                }
            }
            i = i + 1;
        }
    }
    proof {
        assert(s@.subrange(end as int, end as int) =~= Seq::<u8>::empty());
        assert(out@ + Seq::<u8>::empty() =~= out@);
    }
    Some(out)
}

fn value_parse_exec(s: &[u8], start: usize, end: usize) -> (r: Option<Vec<u8>>)
    requires
        start <= end <= s@.len(),
    ensures
        match value_parse(s@.subrange(start as int, end as int)) {
            None => r is None,
            Some(v) => r matches Some(w) && w@ == v,
        },
{
    let mut i = start;
    while i < end && s[i] == 0x2E
        invariant
            start <= i <= end <= s@.len(),
            forall|j: int| start <= j < i ==> s@[j] == 0x2E,
        decreases end - i,
    {
        i = i + 1;
    }
    let ghost seg = s@.subrange(start as int, end as int);
    if i == end {
        proof {
            assert(all_dots(seg));
        }
        if end - start < 3 {
            return None;
        }
        let v = crate::tlv::slice_to_vec(s, start + 3, end);
        proof {
            assert(seg.skip(3) =~= s@.subrange(start + 3, end as int));
        }
        Some(v)
    } else {
        proof {
            assert(!all_dots(seg)) by {
                assert(seg[i - start] != 0x2E);
            }
        }
        unescape_exec(s, start, end)
    }
}

/// Parse the component text `s[start..end]`.
fn parse_component(s: &[u8], start: usize, end: usize) -> (r: Option<NameComponent>)
    requires
        start <= end <= s@.len(),
    ensures
        match component_parse(s@.subrange(start as int, end as int)) {
            None => r is None,
            Some(c) => r matches Some(d) && d@ == c,
        },
{
    let ghost seg = s@.subrange(start as int, end as int);
    let e = first_index_exec(s, start, end, 0x3D);
    proof {
        assert(seg.subrange(0, (e - start) as int) =~= s@.subrange(start as int, e as int));
        if e < end {
            assert(seg.skip(e - start + 1) =~= s@.subrange(e + 1, end as int));
        }
    }
    if e < end && e > start && all_digits_exec(s, start, e) {
        match digits_to_u64(s, start, e) {
            Some(t) => {
                return match value_parse_exec(s, e + 1, end) {
                    None => None,
                    Some(v) => Some(NameComponent::typed(t, v)),
                };
            },
            None => {},
        }
    }
    match value_parse_exec(s, start, end) {
        None => None,
        Some(v) => Some(NameComponent::generic(v)),
    }
}

/// Why a name URI did not parse.
#[derive(Debug, Clone, Copy, PartialEq, Eq)]
pub struct NameParseError;

impl core::str::FromStr for Name {
    type Err = NameParseError;

    fn from_str(s: &str) -> (r: Result<Name, NameParseError>)
        ensures
            match uri_parse(utf8_bytes(s@)) {
                None => r is Err,
                Some(n) => r matches Ok(m) && m@ == n,
            },
    {
        match Name::from_uri(s) {
            Some(n) => Ok(n),
            None => Err(NameParseError),
        }
    }
}

} // verus!
