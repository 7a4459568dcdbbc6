//! Challenge attestations: structured evidence of how an NDNCERT challenge was
//! satisfied, embedded in the issued certificate.
//!
//! Attestations ride in the certificate's `SignatureInfo` ->
//! `AdditionalDescription` (TLV `0x0102`). A single `DescriptionEntry`
//! (`0x0200`) carries the set:
//!
//! ```text
//! AdditionalDescription 0x0102
//!   DescriptionEntry 0x0200
//!     DescriptionKey   0x0201  "ndn.challenge-attestations"
//!     DescriptionValue 0x0202  <canonical JSON of AttestationSet>
//! ```
//!
//! The JSON text itself is written and read outside this library; here the
//! set is a plain value, and the TLV framing and search are verified.

use vstd::prelude::*;

use crate::envelope::last_value;
use crate::text::{string_from_static, utf8_bytes};
use crate::tlv::{read_tlv, slice_to_vec, tlv_encode, tlv_elements, tlv_parse, write_tlv};

verus! {

pub const TLV_SIGNATURE_INFO: u64 = 0x16;
pub const TLV_SIGNATURE_TYPE: u64 = 0x1b;
pub const TLV_ADDITIONAL_DESCRIPTION: u64 = 0x0102;
pub const TLV_DESCRIPTION_ENTRY: u64 = 0x0200;
pub const TLV_DESCRIPTION_KEY: u64 = 0x0201;
pub const TLV_DESCRIPTION_VALUE: u64 = 0x0202;

/// `DescriptionKey` under which the attestation set is stored.
pub const ATTESTATION_DESCRIPTION_KEY: &'static str = "ndn.challenge-attestations";

/// How the leaves of an [`AttestationSet`] combine.
#[derive(Debug, Clone, Copy, PartialEq, Eq)]
pub enum Combinator {
    /// One challenge satisfied the request (the common case).
    Single,
    /// Every leaf was satisfied (an `all-of` composition).
    AllOf,
    /// One leaf of several satisfied the request (an `any-of` composition).
    AnyOf,
    /// `required` of `total` leaves satisfied the request.
    NofM { required: usize, total: usize },
}

/// Evidence about a single satisfied challenge leaf.
#[derive(Debug, Clone, PartialEq, Eq)]
pub struct ChallengeAttestation {
    /// The challenge type (`"token"`, `"device-approval"`, ...).
    pub kind: String,
    /// Unix seconds when the CA recorded the attestation; `0` until stamped.
    pub performed_at: u64,
    /// The CA component that ran this leaf.
    pub handler_name: Option<String>,
    pub handler_version: Option<String>,
    /// Kind-specific evidence: field names and their JSON texts, one entry
    /// per name.
    pub evidence: Vec<(String, String)>,
    /// A signature by the handler itself, for cross-process attestations.
    pub signature: Option<String>,
}

/// An ordered set of challenge attestations plus the combinator that ties
/// them together.
#[derive(Debug, Clone, PartialEq, Eq)]
pub struct AttestationSet {
    pub combinator: Combinator,
    pub leaves: Vec<ChallengeAttestation>,
}

impl ChallengeAttestation {
    /// A bare leaf naming the challenge `kind`, with no evidence.
    pub fn of_kind(kind: &str) -> (r: ChallengeAttestation)
        ensures
            r.kind@ == kind@,
            r.performed_at == 0,
            r.handler_name is None,
            r.handler_version is None,
            r.evidence@.len() == 0,
            r.signature is None,
    {
        ChallengeAttestation {
            kind: string_from_static(kind),
            performed_at: 0,
            handler_name: None,
            handler_version: None,
            evidence: Vec::new(),
            signature: None,
        }
    }

    /// Attach one kind-specific evidence field (builder style): it replaces
    /// an earlier field of the same name, and the fields stay in the order
    /// of their names.
    pub fn with_evidence(self, key: String, value: String) -> (r: ChallengeAttestation)
        ensures
            r.kind == self.kind,
            r.performed_at == self.performed_at,
            r.handler_name == self.handler_name,
            r.handler_version == self.handler_version,
            r.signature == self.signature,
            evidence_view(r.evidence@) == sorted_insert(evidence_without(evidence_view(self.evidence@), key@), (key@, value@)),
            evidence_sorted(evidence_view(self.evidence@)) ==> evidence_sorted(evidence_view(r.evidence@)),
    {
        let ghost orig = evidence_view(self.evidence@);
        let ChallengeAttestation { kind, performed_at, handler_name, handler_version, evidence, signature } = self;
        let mut out: Vec<(String, String)> = Vec::new();
        let mut i: usize = 0;
        while i < evidence.len()
            invariant
                i <= evidence@.len(),
                evidence_view(out@) == evidence_without(evidence_view(evidence@.take(i as int)), key@),
            decreases evidence@.len() - i,
        {
            let e = &evidence[i];
            proof {
                assert(evidence@.take(i + 1) =~= evidence@.take(i as int).push(evidence@[i as int]));
                assert(evidence_view(evidence@.take(i + 1)) =~= evidence_view(evidence@.take(i as int)).push((e.0@, e.1@)));
                assert(evidence_view(evidence@.take(i + 1)).drop_last() =~= evidence_view(evidence@.take(i as int)));
            }
            if !crate::text::str_eq(e.0.as_str(), key.as_str()) {
                let ghost before = out@;
                out.push((e.0.clone(), e.1.clone()));
                proof {
                    assert(evidence_view(out@) =~= evidence_view(before).push((e.0@, e.1@)));
                }
            }
            i = i + 1;
        }
        proof {
            assert(evidence@.take(evidence@.len() as int) =~= evidence@);
        }
        let ghost before = out@;
        let ghost w = evidence_view(before);
        let ghost kv = (key@, value@);
        let mut p: usize = 0;
        proof {
            assert(w.skip(0) =~= w);
        }
        while p < out.len() && !text_less(key.as_str(), out[p].0.as_str())
            invariant
                p <= out@.len(),
                out@ == before,
                w == evidence_view(before),
                insert_pos(w, key@) == p + insert_pos(w.skip(p as int), key@),
            decreases out@.len() - p,
        {
            proof {
                assert(w.skip(p as int)[0] == w[p as int]);
                assert(w.skip(p as int).drop_first() =~= w.skip(p + 1));
            }
            p = p + 1;
        }
        proof {
            if p == out@.len() {
                assert(w.skip(p as int).len() == 0);
            } else {
                assert(w.skip(p as int)[0] == w[p as int]);
            }
        }
        out.insert(p, (key, value));
        proof {
            assert(evidence_view(out@) =~= w.insert(p as int, kv));
            if evidence_sorted(orig) {
                lemma_without_sorted(orig, kv.0);
                lemma_sorted_insert(w, kv);
            }
        }
        ChallengeAttestation { kind, performed_at, handler_name, handler_version, evidence: out, signature }
    }
}

/// Text order: code point by code point, a proper prefix first (the order
/// of `String`).
pub open spec fn text_lt(a: Seq<char>, b: Seq<char>) -> bool
    decreases a.len(),
{
    if a.len() == 0 {
        b.len() > 0
    } else if b.len() == 0 {
        false
    } else if a[0] != b[0] {
        (a[0] as int) < (b[0] as int)
    } else {
        text_lt(a.drop_first(), b.drop_first())
    }
}

/// Whether `a` sorts before `b`.
pub fn text_less(a: &str, b: &str) -> (r: bool)
    ensures
        r == text_lt(a@, b@),
{
    let na = a.unicode_len();
    let nb = b.unicode_len();
    let mut i: usize = 0;
    proof {
        assert(a@.skip(0) =~= a@);
        assert(b@.skip(0) =~= b@);
    }
    while i < na && i < nb
        invariant
            i <= na,
            i <= nb,
            na == a@.len(),
            nb == b@.len(),
            text_lt(a@, b@) == text_lt(a@.skip(i as int), b@.skip(i as int)),
        decreases na - i,
    {
        let ca = a.get_char(i);
        let cb = b.get_char(i);
        proof {
            assert(a@.skip(i as int)[0] == ca);
            assert(b@.skip(i as int)[0] == cb);
            assert(a@.skip(i as int).drop_first() =~= a@.skip(i + 1));
            assert(b@.skip(i as int).drop_first() =~= b@.skip(i + 1));
        }
        if ca != cb {
            return (ca as u32) < (cb as u32);
        }
        i = i + 1;
    }
    i < nb
}

proof fn lemma_text_lt_irreflexive(a: Seq<char>)
    ensures
        !text_lt(a, a),
    decreases a.len(),
{
    if a.len() > 0 {
        lemma_text_lt_irreflexive(a.drop_first());
    }
}

proof fn lemma_text_lt_trans(a: Seq<char>, b: Seq<char>, c: Seq<char>)
    requires
        text_lt(a, b),
        text_lt(b, c),
    ensures
        text_lt(a, c),
    decreases a.len(),
{
    if a.len() > 0 && b.len() > 0 && c.len() > 0 && a[0] == b[0] && b[0] == c[0] {
        lemma_text_lt_trans(a.drop_first(), b.drop_first(), c.drop_first());
    }
}

proof fn lemma_text_lt_total(a: Seq<char>, b: Seq<char>)
    requires
        a != b,
    ensures
        text_lt(a, b) || text_lt(b, a),
    decreases a.len(),
{
    if a.len() > 0 && b.len() > 0 {
        if a[0] == b[0] {
            if a.drop_first() == b.drop_first() {
                assert(a =~= seq![a[0]] + a.drop_first());
                assert(b =~= seq![b[0]] + b.drop_first());
            }
            lemma_text_lt_total(a.drop_first(), b.drop_first());
        }
    } else if a.len() == 0 && b.len() == 0 {
        assert(a =~= b);
    }
}

/// Evidence entries whose names strictly increase.
pub open spec fn evidence_sorted(ev: Seq<(Seq<char>, Seq<char>)>) -> bool {
    forall|i: int, j: int| 0 <= i < j < ev.len() ==> text_lt(#[trigger] ev[i].0, #[trigger] ev[j].0)
}

/// Where an entry named `k` goes in sorted entries: before the first entry
/// whose name sorts after `k`.
pub open spec fn insert_pos(ev: Seq<(Seq<char>, Seq<char>)>, k: Seq<char>) -> nat
    decreases ev.len(),
{
    if ev.len() == 0 {
        0
    } else if text_lt(k, ev[0].0) {
        0
    } else {
        1 + insert_pos(ev.drop_first(), k)
    }
}

/// The entries with `e` placed at its position.
pub open spec fn sorted_insert(ev: Seq<(Seq<char>, Seq<char>)>, e: (Seq<char>, Seq<char>)) -> Seq<(Seq<char>, Seq<char>)> {
    ev.insert(insert_pos(ev, e.0) as int, e)
}

proof fn lemma_insert_pos(ev: Seq<(Seq<char>, Seq<char>)>, k: Seq<char>)
    ensures
        insert_pos(ev, k) <= ev.len(),
        forall|j: int| 0 <= j < insert_pos(ev, k) ==> !text_lt(k, #[trigger] ev[j].0),
        insert_pos(ev, k) < ev.len() ==> text_lt(k, ev[insert_pos(ev, k) as int].0),
    decreases ev.len(),
{
    if ev.len() > 0 && !text_lt(k, ev[0].0) {
        lemma_insert_pos(ev.drop_first(), k);
        assert forall|j: int| 0 <= j < insert_pos(ev, k) implies !text_lt(k, #[trigger] ev[j].0) by {
            if j > 0 {
                assert(ev[j] == ev.drop_first()[j - 1]);
            }
        }
    }
}

/// Every entry left after removing `k` is an entry of `ev`, in order, and
/// none is named `k`.
proof fn lemma_without_sorted(ev: Seq<(Seq<char>, Seq<char>)>, k: Seq<char>)
    requires
        evidence_sorted(ev),
    ensures
        evidence_sorted(evidence_without(ev, k)),
        forall|i: int| 0 <= i < evidence_without(ev, k).len() ==> (#[trigger] evidence_without(ev, k)[i]).0 != k,
        forall|i: int| #![trigger evidence_without(ev, k)[i]]
            0 <= i < evidence_without(ev, k).len() ==> exists|j: int| 0 <= j < ev.len() && ev[j] == evidence_without(ev, k)[i],
    decreases ev.len(),
{
    if ev.len() > 0 {
        let d = ev.drop_last();
        assert forall|i: int, j: int| 0 <= i < j < d.len() implies text_lt(#[trigger] d[i].0, #[trigger] d[j].0) by {
            assert(d[i] == ev[i] && d[j] == ev[j]);
        }
        lemma_without_sorted(d, k);
        let w = evidence_without(d, k);
        if ev.last().0 != k {
            let w2 = w.push(ev.last());
            assert forall|i: int| #![trigger w2[i]] 0 <= i < w2.len() implies exists|j: int| 0 <= j < ev.len() && ev[j] == w2[i] by {
                if i < w.len() {
                    let j = choose|j: int| 0 <= j < d.len() && d[j] == w[i];
                    assert(ev[j] == w2[i]);
                } else {
                    assert(ev[ev.len() - 1] == w2[i]);
                }
            }
            assert forall|i: int, j: int| 0 <= i < j < w2.len() implies text_lt(#[trigger] w2[i].0, #[trigger] w2[j].0) by {
                if j < w.len() {
                    assert(w2[i] == w[i] && w2[j] == w[j]);
                } else {
                    let m = choose|m: int| 0 <= m < d.len() && d[m] == w[i];
                    assert(w2[i] == ev[m]);
                    assert(text_lt(ev[m].0, ev[ev.len() - 1].0));
                }
            }
            assert forall|i: int| 0 <= i < w2.len() implies (#[trigger] w2[i]).0 != k by {
                if i < w.len() {
                    assert(w2[i] == w[i]);
                }
            }
        }
    }
}

/// Placing an entry whose name is new keeps sorted entries sorted.
proof fn lemma_sorted_insert(ev: Seq<(Seq<char>, Seq<char>)>, e: (Seq<char>, Seq<char>))
    requires
        evidence_sorted(ev),
        forall|i: int| 0 <= i < ev.len() ==> (#[trigger] ev[i]).0 != e.0,
    ensures
        evidence_sorted(sorted_insert(ev, e)),
{
    lemma_insert_pos(ev, e.0);
    let p = insert_pos(ev, e.0) as int;
    let r = sorted_insert(ev, e);
    assert(r.len() == ev.len() + 1);
    assert forall|i: int| 0 <= i < r.len() implies #[trigger] r[i] == if i < p {
        ev[i]
    } else if i == p {
        e
    } else {
        ev[i - 1]
    } by {}
    assert forall|i: int, j: int| 0 <= i < j < r.len() implies text_lt(#[trigger] r[i].0, #[trigger] r[j].0) by {
        if i < p && j < p {
        } else if i < p && j == p {
            assert(!text_lt(e.0, ev[i].0));
            lemma_text_lt_total(ev[i].0, e.0);
        } else if i < p && j > p {
            assert(i < j - 1 || i == j - 1);
            if i < j - 1 {
            }
        } else if i == p {
            assert(text_lt(e.0, ev[p].0));
            if j - 1 > p {
                lemma_text_lt_trans(e.0, ev[p].0, ev[j - 1].0);
            }
        } else {
        }
    }
}

/// Evidence entries as plain text pairs.
pub open spec fn evidence_view(ev: Seq<(String, String)>) -> Seq<(Seq<char>, Seq<char>)> {
    ev.map_values(|e: (String, String)| (e.0@, e.1@))
}

/// The entries whose name is not `k`, in order.
pub open spec fn evidence_without(ev: Seq<(Seq<char>, Seq<char>)>, k: Seq<char>) -> Seq<(Seq<char>, Seq<char>)>
    decreases ev.len(),
{
    if ev.len() == 0 {
        Seq::empty()
    } else if ev.last().0 == k {
        evidence_without(ev.drop_last(), k)
    } else {
        evidence_without(ev.drop_last(), k).push(ev.last())
    }
}

impl AttestationSet {
    /// A single-challenge set.
    pub fn single(leaf: ChallengeAttestation) -> (r: AttestationSet)
        ensures
            r.combinator == Combinator::Single,
            r.leaves@ == seq![leaf],
    {
        let mut leaves: Vec<ChallengeAttestation> = Vec::new();
        leaves.push(leaf);
        AttestationSet { combinator: Combinator::Single, leaves }
    }

    pub fn new(combinator: Combinator, leaves: Vec<ChallengeAttestation>) -> (r: AttestationSet)
        ensures
            r.combinator == combinator,
            r.leaves == leaves,
    {
        AttestationSet { combinator, leaves }
    }

    /// Stamp `performed_at = ts` on every leaf that has not been stamped yet.
    pub fn stamp(&mut self, ts: u64)
        ensures
            final(self).combinator == old(self).combinator,
            final(self).leaves@.len() == old(self).leaves@.len(),
            forall|i: int| 0 <= i < old(self).leaves@.len() ==> {
                let o = #[trigger] old(self).leaves@[i];
                let n = final(self).leaves@[i];
                &&& n.kind == o.kind
                &&& n.handler_name == o.handler_name
                &&& n.handler_version == o.handler_version
                &&& n.evidence == o.evidence
                &&& n.signature == o.signature
                &&& n.performed_at == if o.performed_at == 0 {
                    ts
                } else {
                    o.performed_at
                }
            },
    {
        let ghost orig = self.leaves@;
        let mut old_leaves: Vec<ChallengeAttestation> = Vec::new();
        std::mem::swap(&mut old_leaves, &mut self.leaves);
        let mut moved: Vec<ChallengeAttestation> = Vec::new();
        while old_leaves.len() > 0
            invariant
                old_leaves@.len() + moved@.len() == orig.len(),
                old_leaves@ == orig.subrange(0, old_leaves@.len() as int),
                forall|j: int| 0 <= j < moved@.len() ==> #[trigger] moved@[j] == orig[orig.len() - 1 - j],
            decreases old_leaves@.len(),
        {
            let e = old_leaves.pop().unwrap();
            moved.push(e);
        }
        let mut out: Vec<ChallengeAttestation> = Vec::new();
        while moved.len() > 0
            invariant
                out@.len() + moved@.len() == orig.len(),
                forall|j: int| 0 <= j < moved@.len() ==> #[trigger] moved@[j] == orig[orig.len() - 1 - j],
                forall|i: int| 0 <= i < out@.len() ==> {
                    let o = #[trigger] orig[i];
                    let n = out@[i];
                    &&& n.kind == o.kind
                    &&& n.handler_name == o.handler_name
                    &&& n.handler_version == o.handler_version
                    &&& n.evidence == o.evidence
                    &&& n.signature == o.signature
                    &&& n.performed_at == if o.performed_at == 0 {
                        ts
                    } else {
                        o.performed_at
                    }
                },
            decreases moved@.len(),
        {
            let ghost idx = out@.len();
            let mut e = moved.pop().unwrap();
            proof {
                assert(e == orig[idx as int]);
            }
            if e.performed_at == 0 {
                e.performed_at = ts;
            }
            out.push(e);
        }
        self.leaves = out;
    }
}

// ---------------------------------------------------------------------------
// Additional description framing
// ---------------------------------------------------------------------------

/// The key under which the set is stored, as bytes.
pub open spec fn attestation_key_bytes() -> Seq<u8> {
    utf8_bytes(ATTESTATION_DESCRIPTION_KEY@)
}

/// The value of the `AdditionalDescription` that carries the attestation
/// set whose JSON text is `json`: one `DescriptionEntry`.
pub open spec fn additional_description(json: Seq<u8>) -> Seq<u8> {
    tlv_encode(
        TLV_DESCRIPTION_ENTRY,
        tlv_encode(TLV_DESCRIPTION_KEY, attestation_key_bytes()) + tlv_encode(TLV_DESCRIPTION_VALUE, json),
    )
}

/// Frame the JSON text of an attestation set as the value of an
/// `AdditionalDescription` element.
pub fn encode_additional_description(json: &[u8]) -> (r: Vec<u8>)
    ensures
        r@ == additional_description(json@),
{
    let mut entry: Vec<u8> = Vec::new();
    write_tlv(&mut entry, TLV_DESCRIPTION_KEY, ATTESTATION_DESCRIPTION_KEY.as_bytes());
    write_tlv(&mut entry, TLV_DESCRIPTION_VALUE, json);
    let mut out: Vec<u8> = Vec::new();
    write_tlv(&mut out, TLV_DESCRIPTION_ENTRY, entry.as_slice());
    proof {
        assert(out@ =~= additional_description(json@));
    }
    out
}

// ---------------------------------------------------------------------------
// Searching a signed region
// ---------------------------------------------------------------------------

/// The outcome of a search through nested elements.
pub enum Search {
    Found(Seq<u8>),
    Absent,
    Broken,
}

/// The value of one `DescriptionEntry` answers for `key`: its last
/// `DescriptionKey` is `key` and it has a `DescriptionValue` (the last one).
pub open spec fn entry_value_for(entry: Seq<u8>, key: Seq<u8>) -> Option<Seq<u8>> {
    match tlv_elements(entry) {
        None => None,
        Some(els) => if last_value(els, TLV_DESCRIPTION_KEY) == Some(key) {
            last_value(els, TLV_DESCRIPTION_VALUE)
        } else {
            None
        },
    }
}

/// Search the entries of an `AdditionalDescription` value.
#[verifier::opaque]
pub open spec fn search_entries(s: Seq<u8>, key: Seq<u8>) -> Search
    decreases s.len(),
{
    if s.len() == 0 {
        Search::Absent
    } else {
        match tlv_parse(s) {
            None => Search::Broken,
            Some((t, v, n)) => if n == 0 || n > s.len() {
                Search::Broken
            } else if t == TLV_DESCRIPTION_ENTRY && entry_value_for(v, key) is Some {
                Search::Found(entry_value_for(v, key).unwrap())
            } else {
                search_entries(s.skip(n as int), key)
            },
        }
    }
}

/// Search the elements of a `SignatureInfo` value.
#[verifier::opaque]
pub open spec fn search_signature_info(s: Seq<u8>, key: Seq<u8>) -> Search
    decreases s.len(),
{
    if s.len() == 0 {
        Search::Absent
    } else {
        match tlv_parse(s) {
            None => Search::Broken,
            Some((t, v, n)) => if n == 0 || n > s.len() {
                Search::Broken
            } else if t == TLV_ADDITIONAL_DESCRIPTION && !(search_entries(v, key) is Absent) {
                search_entries(v, key)
            } else {
                search_signature_info(s.skip(n as int), key)
            },
        }
    }
}

/// Search the elements of a signed region.
#[verifier::opaque]
pub open spec fn search_region(s: Seq<u8>, key: Seq<u8>) -> Search
    decreases s.len(),
{
    if s.len() == 0 {
        Search::Absent
    } else {
        match tlv_parse(s) {
            None => Search::Broken,
            Some((t, v, n)) => if n == 0 || n > s.len() {
                Search::Broken
            } else if t == TLV_SIGNATURE_INFO && !(search_signature_info(v, key) is Absent) {
                search_signature_info(v, key)
            } else {
                search_region(s.skip(n as int), key)
            },
        }
    }
}

pub open spec fn found(r: Search) -> Option<Seq<u8>> {
    match r {
        Search::Found(v) => Some(v),
        _ => None,
    }
}

/// Given the value of one `DescriptionEntry`, its `DescriptionValue` if its
/// `DescriptionKey` is `key`.
pub fn entry_value_if_key(entry: &[u8], key: &[u8]) -> (r: Option<Vec<u8>>)
    ensures
        match entry_value_for(entry@, key@) {
            Some(v) => r matches Some(w) && w@ == v,
            None => r is None,
        },
{
    let mut found_key: Option<Vec<u8>> = None;
    let mut value: Option<Vec<u8>> = None;
    let ghost mut consumed = Seq::<(u64, Seq<u8>)>::empty();
    let mut pos: usize = 0;
    proof {
        assert(entry@.skip(0) =~= entry@);
        match tlv_elements(entry@) {
            None => {},
            Some(rest) => {
                assert(consumed + rest =~= rest);
            },
        }
    }
    while pos < entry.len()
        invariant
            pos <= entry@.len(),
            tlv_elements(entry@) == crate::envelope::prepend_elements(consumed, tlv_elements(entry@.skip(pos as int))),
            crate::envelope::bytes_state(found_key, last_value(consumed, TLV_DESCRIPTION_KEY)),
            crate::envelope::bytes_state(value, last_value(consumed, TLV_DESCRIPTION_VALUE)),
        decreases entry@.len() - pos,
    {
        let sp = match read_tlv(entry, pos) {
            Some(sp) => sp,
            None => {
                proof {
                    assert(entry@.skip(pos as int).len() > 0);
                    assert(tlv_elements(entry@.skip(pos as int)) is None);
                }
                return None;
            },
        };
        proof {
            crate::envelope::lemma_elements_step(entry@, pos as int);
        }
        let v = slice_to_vec(entry, sp.value_start, sp.value_end);
        let ghost x = (sp.typ, v@);
        proof {
            crate::envelope::lemma_prepend_step(consumed, x, Ok(Seq::empty()), tlv_elements(entry@.skip(sp.value_end as int)));
            crate::envelope::lemma_last_value_push(consumed, x, TLV_DESCRIPTION_KEY);
            crate::envelope::lemma_last_value_push(consumed, x, TLV_DESCRIPTION_VALUE);
        }
        if sp.typ == TLV_DESCRIPTION_KEY {
            found_key = Some(v);
        } else if sp.typ == TLV_DESCRIPTION_VALUE {
            value = Some(v);
        }
        proof {
            consumed = consumed.push(x);
        }
        pos = sp.value_end;
    }
    proof {
        assert(entry@.skip(pos as int) =~= Seq::<u8>::empty());
        assert(consumed + Seq::<(u64, Seq<u8>)>::empty() =~= consumed);
    }
    let matches = match &found_key {
        Some(k) => crate::name::bytes_eq(k.as_slice(), key),
        None => false,
    };
    if matches {
        value
    } else {
        None
    }
}

fn search_entries_exec(s: &[u8], key: &[u8]) -> (r: Option<Option<Vec<u8>>>)
    ensures
        match search_entries(s@, key@) {
            Search::Found(v) => r matches Some(Some(w)) && w@ == v,
            Search::Absent => r matches Some(None),
            Search::Broken => r is None,
        },
{
    let mut pos: usize = 0;
    proof {
        assert(s@.skip(0) =~= s@);
    }
    while pos < s.len()
        invariant
            pos <= s@.len(),
            search_entries(s@, key@) == search_entries(s@.skip(pos as int), key@),
        decreases s@.len() - pos,
    {
        let ghost t = s@.skip(pos as int);
        proof {
            lemma_entries_step(t, key@);
        }
        let sp = match read_tlv(s, pos) {
            Some(sp) => sp,
            None => return None,
        };
        proof {
            assert(t.skip((sp.value_end - pos) as int) =~= s@.skip(sp.value_end as int));
        }
        if sp.typ == TLV_DESCRIPTION_ENTRY {
            let v = slice_to_vec(s, sp.value_start, sp.value_end);
            match entry_value_if_key(v.as_slice(), key) {
                Some(w) => return Some(Some(w)),
                None => {},
            }
        }
        pos = sp.value_end;
    }
    proof {
        assert(s@.skip(pos as int) =~= Seq::<u8>::empty());
        lemma_entries_step(s@.skip(pos as int), key@);
        lemma_siginfo_step(s@.skip(pos as int), key@);
    }
    Some(None)
}

fn search_signature_info_exec(s: &[u8], key: &[u8]) -> (r: Option<Option<Vec<u8>>>)
    ensures
        match search_signature_info(s@, key@) {
            Search::Found(v) => r matches Some(Some(w)) && w@ == v,
            Search::Absent => r matches Some(None),
            Search::Broken => r is None,
        },
{
    let mut pos: usize = 0;
    proof {
        assert(s@.skip(0) =~= s@);
    }
    while pos < s.len()
        invariant
            pos <= s@.len(),
            search_signature_info(s@, key@) == search_signature_info(s@.skip(pos as int), key@),
        decreases s@.len() - pos,
    {
        let ghost t = s@.skip(pos as int);
        proof {
            lemma_siginfo_step(t, key@);
        }
        let sp = match read_tlv(s, pos) {
            Some(sp) => sp,
            None => return None,
        };
        proof {
            assert(t.skip((sp.value_end - pos) as int) =~= s@.skip(sp.value_end as int));
        }
        if sp.typ == TLV_ADDITIONAL_DESCRIPTION {
            let v = slice_to_vec(s, sp.value_start, sp.value_end);
            match search_entries_exec(v.as_slice(), key) {
                Some(None) => {},
                other => return other,
            }
        }
        pos = sp.value_end;
    }
    proof {
        assert(s@.skip(pos as int) =~= Seq::<u8>::empty());
        lemma_entries_step(s@.skip(pos as int), key@);
        lemma_siginfo_step(s@.skip(pos as int), key@);
    }
    Some(None)
}

proof fn lemma_entries_step(t: Seq<u8>, key: Seq<u8>)
    ensures
        t.len() == 0 ==> search_entries(t, key) is Absent,
        t.len() > 0 ==> match tlv_parse(t) {
            None => search_entries(t, key) is Broken,
            Some((typ, v, n)) => 2 <= n <= t.len() && search_entries(t, key) == if typ == TLV_DESCRIPTION_ENTRY
                && entry_value_for(v, key) is Some {
                Search::Found(entry_value_for(v, key).unwrap())
            } else {
                search_entries(t.skip(n as int), key)
            },
        },
{
    reveal(search_entries);
    crate::tlv::lemma_tlv_parse_progress(t);
}

proof fn lemma_siginfo_step(t: Seq<u8>, key: Seq<u8>)
    ensures
        t.len() == 0 ==> search_signature_info(t, key) is Absent,
        t.len() > 0 ==> match tlv_parse(t) {
            None => search_signature_info(t, key) is Broken,
            Some((typ, v, n)) => 2 <= n <= t.len() && search_signature_info(t, key) == if typ == TLV_ADDITIONAL_DESCRIPTION
                && !(search_entries(v, key) is Absent) {
                search_entries(v, key)
            } else {
                search_signature_info(t.skip(n as int), key)
            },
        },
{
    reveal(search_signature_info);
    crate::tlv::lemma_tlv_parse_progress(t);
}

proof fn lemma_region_step(t: Seq<u8>, key: Seq<u8>)
    ensures
        t.len() == 0 ==> search_region(t, key) is Absent,
        t.len() > 0 ==> match tlv_parse(t) {
            None => search_region(t, key) is Broken,
            Some((typ, v, n)) => 2 <= n <= t.len() && search_region(t, key) == if typ == TLV_SIGNATURE_INFO
                && !(search_signature_info(v, key) is Absent) {
                search_signature_info(v, key)
            } else {
                search_region(t.skip(n as int), key)
            },
        },
{
    reveal(search_region);
    crate::tlv::lemma_tlv_parse_progress(t);
}

/// Walk `signed_region` -> `SignatureInfo` -> `AdditionalDescription` and
/// return the `DescriptionValue` of the first entry whose `DescriptionKey`
/// is `key`; `None` when there is none or an element on the way is
/// malformed.
pub fn find_description_value(s: &[u8], key: &[u8]) -> (r: Option<Vec<u8>>)
    ensures
        match found(search_region(s@, key@)) {
            Some(v) => r matches Some(w) && w@ == v,
            None => r is None,
        },
{
    let mut pos: usize = 0;
    proof {
        assert(s@.skip(0) =~= s@);
    }
    while pos < s.len()
        invariant
            pos <= s@.len(),
            search_region(s@, key@) == search_region(s@.skip(pos as int), key@),
        decreases s@.len() - pos,
    {
        let ghost t = s@.skip(pos as int);
        proof {
            lemma_region_step(t, key@);
        }
        let sp = match read_tlv(s, pos) {
            Some(sp) => sp,
            None => {
                proof {
                    assert(tlv_parse(t) is None);
                    assert(search_region(t, key@) is Broken);
                    assert(search_region(s@, key@) is Broken);
                }
                return None;
            },
        };
        proof {
            assert(t.skip((sp.value_end - pos) as int) =~= s@.skip(sp.value_end as int));
        }
        if sp.typ == TLV_SIGNATURE_INFO {
            let v = slice_to_vec(s, sp.value_start, sp.value_end);
            let inner = search_signature_info_exec(v.as_slice(), key);
            match inner {
                Some(None) => {},
                Some(Some(w)) => {
                    return Some(w);
                },
                None => {
                    return None;
                },
            }
        }
        pos = sp.value_end;
    }
    proof {
        assert(s@.skip(pos as int) =~= Seq::<u8>::empty());
        lemma_region_step(s@.skip(pos as int), key@);
    }
    None
}

} // verus!
