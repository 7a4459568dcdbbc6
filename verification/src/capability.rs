//! Capability: a key-bound, time-bounded authorization grant.
//!
//! A capability authorizes a named key to perform a named operation within a
//! time window. It is carried as the content of an issuer-signed `Data`;
//! this module holds its payload codec and the authorization predicate
//! (signatures are checked elsewhere). A capability is never a bearer
//! token: the request's verified signer must be under the grantee.

use vstd::prelude::*;

use crate::name::{spec_has_prefix, ComponentView, Name, TLV_NAME};
use crate::tlv::{be_bytes, be_value, read_tlv, tlv_elements, tlv_encode, tlv_encode_all, tlv_parse, write_tlv};

verus! {

pub const TLV_CAPABILITY: u64 = 0x240;

pub const TLV_CAP_GRANTEE: u64 = 0x242;

pub const TLV_CAP_OPERATION: u64 = 0x244;

pub const TLV_CAP_NOT_BEFORE: u64 = 0x246;

pub const TLV_CAP_NOT_AFTER: u64 = 0x248;

/// Errors of the capability layer.
#[derive(Clone, Copy, Debug, PartialEq, Eq)]
pub enum CapabilityError {
    /// The encoded capability was truncated or had an unexpected structure.
    Malformed(&'static str),
    /// The request's signer is not under the grantee.
    NotGrantee,
    /// The operation lies outside the authorized prefix.
    OutOfScope,
    /// The validity window has not started.
    NotYetValid,
    /// The validity window has passed.
    Expired,
}

/// A key-bound, time-bounded authorization grant.
#[derive(Clone, Debug, PartialEq, Eq)]
pub struct Capability {
    /// The identity (or key) authorized to invoke: the request's verified
    /// signer must be under it.
    pub grantee: Name,
    /// The service-name prefix authorized.
    pub operation: Name,
    /// Start of the window, in seconds (inclusive).
    pub not_before: u64,
    /// End of the window, in seconds (exclusive).
    pub not_after: u64,
}

/// The full Name TLV of a name.
pub open spec fn name_tlv(n: Seq<ComponentView>) -> Seq<u8> {
    tlv_encode(TLV_NAME, tlv_encode_all(n))
}

/// The payload of a capability.
pub open spec fn capability_wire(g: Seq<ComponentView>, op: Seq<ComponentView>, nb: u64, na: u64) -> Seq<u8> {
    tlv_encode(
        TLV_CAPABILITY,
        tlv_encode(TLV_CAP_GRANTEE, name_tlv(g)) + tlv_encode(TLV_CAP_OPERATION, name_tlv(op)) + tlv_encode(
            TLV_CAP_NOT_BEFORE,
            be_bytes(nb as nat, 8),
        ) + tlv_encode(TLV_CAP_NOT_AFTER, be_bytes(na as nat, 8)),
    )
}

/// Read a field whose value is a Name TLV: the name and the bytes taken.
#[verifier::opaque]
pub open spec fn name_field(s: Seq<u8>, field: u64) -> Result<(Seq<ComponentView>, nat), &'static str> {
    match tlv_parse(s) {
        None => Err("name field"),
        Some((t, body, n)) => if t != field {
            Err("unexpected field order")
        } else {
            match tlv_parse(body) {
                None => Err("name TLV"),
                Some((nt, nval, _)) => if nt != TLV_NAME {
                    Err("expected NAME TLV")
                } else {
                    match tlv_elements(nval) {
                        None => Err("name decode"),
                        Some(els) => Ok((els, n)),
                    }
                },
            }
        },
    }
}

/// Read a field whose value is an 8-byte big-endian integer.
#[verifier::opaque]
pub open spec fn u64_field(s: Seq<u8>, field: u64) -> Result<(u64, nat), &'static str> {
    match tlv_parse(s) {
        None => Err("u64 field"),
        Some((t, body, n)) => if t != field {
            Err("unexpected field order")
        } else if body.len() != 8 {
            Err("u64 length")
        } else {
            Ok((be_value(body) as u64, n))
        },
    }
}

/// What a capability payload holds, or why it is malformed.
pub open spec fn capability_decoding(b: Seq<u8>) -> Result<(Seq<ComponentView>, Seq<ComponentView>, u64, u64), &'static str> {
    match tlv_parse(b) {
        None => Err("top-level TLV"),
        Some((t, body, _)) => if t != TLV_CAPABILITY {
            Err("not a capability")
        } else {
            match name_field(body, TLV_CAP_GRANTEE) {
                Err(e) => Err(e),
                Ok((g, n1)) => match name_field(body.skip(n1 as int), TLV_CAP_OPERATION) {
                    Err(e) => Err(e),
                    Ok((op, n2)) => match u64_field(body.skip((n1 + n2) as int), TLV_CAP_NOT_BEFORE) {
                        Err(e) => Err(e),
                        Ok((nb, n3)) => match u64_field(body.skip((n1 + n2 + n3) as int), TLV_CAP_NOT_AFTER) {
                            Err(e) => Err(e),
                            Ok((na, _)) => Ok((g, op, nb, na)),
                        },
                    },
                },
            }
        },
    }
}

/// The verdict of the authorization predicate.
pub open spec fn authorization(
    grantee: Seq<ComponentView>,
    operation: Seq<ComponentView>,
    not_before: u64,
    not_after: u64,
    signer: Seq<ComponentView>,
    op: Seq<ComponentView>,
    now: u64,
) -> Result<(), CapabilityError> {
    if !spec_has_prefix(signer, grantee) {
        Err(CapabilityError::NotGrantee)
    } else if !spec_has_prefix(op, operation) {
        Err(CapabilityError::OutOfScope)
    } else if now < not_before {
        Err(CapabilityError::NotYetValid)
    } else if now >= not_after {
        Err(CapabilityError::Expired)
    } else {
        Ok(())
    }
}

/// Read a name field at `s[pos..end]`; on success the name and where the
/// field ends.
fn read_name_field(s: &[u8], pos: usize, end: usize, field: u64) -> (r: Result<(Name, usize), CapabilityError>)
    requires
        pos <= end <= s@.len(),
    ensures
        match name_field(s@.subrange(pos as int, end as int), field) {
            Err(m) => r == Err::<(Name, usize), CapabilityError>(CapabilityError::Malformed(m)),
            Ok((n, k)) => r matches Ok((name, e)) && name@ == n && e == pos + k && e <= end,
        },
{
    reveal(name_field);
    let ghost w = s@.subrange(pos as int, end as int);
    let part = crate::tlv::slice_to_vec(s, pos, end);
    let sp = match read_tlv(part.as_slice(), 0) {
        Some(sp) => sp,
        None => {
            proof {
                assert(part@.skip(0) =~= w);
            }
            return Err(CapabilityError::Malformed("name field"));
        },
    };
    proof {
        assert(part@.skip(0) =~= w);
    }
    if sp.typ != field {
        return Err(CapabilityError::Malformed("unexpected field order"));
    }
    let body = crate::tlv::slice_to_vec(part.as_slice(), sp.value_start, sp.value_end);
    let inner = match read_tlv(body.as_slice(), 0) {
        Some(x) => x,
        None => {
            proof {
                assert(body@.skip(0) =~= body@);
            }
            return Err(CapabilityError::Malformed("name TLV"));
        },
    };
    proof {
        assert(body@.skip(0) =~= body@);
    }
    if inner.typ != TLV_NAME {
        return Err(CapabilityError::Malformed("expected NAME TLV"));
    }
    let nval = crate::tlv::slice_to_vec(body.as_slice(), inner.value_start, inner.value_end);
    let name = match Name::decode(nval.as_slice()) {
        Some(n) => n,
        None => return Err(CapabilityError::Malformed("name decode")),
    };
    Ok((name, pos + sp.value_end))
}

/// Read a `u64` field at `s[pos..end]`.
fn read_u64_field(s: &[u8], pos: usize, end: usize, field: u64) -> (r: Result<(u64, usize), CapabilityError>)
    requires
        pos <= end <= s@.len(),
    ensures
        match u64_field(s@.subrange(pos as int, end as int), field) {
            Err(m) => r == Err::<(u64, usize), CapabilityError>(CapabilityError::Malformed(m)),
            Ok((v, k)) => r matches Ok((x, e)) && x == v && e == pos + k && e <= end,
        },
{
    reveal(u64_field);
    let ghost w = s@.subrange(pos as int, end as int);
    let part = crate::tlv::slice_to_vec(s, pos, end);
    proof {
        assert(part@.skip(0) =~= w);
    }
    let sp = match read_tlv(part.as_slice(), 0) {
        Some(sp) => sp,
        None => return Err(CapabilityError::Malformed("u64 field")),
    };
    if sp.typ != field {
        return Err(CapabilityError::Malformed("unexpected field order"));
    }
    if sp.value_end - sp.value_start != 8 {
        return Err(CapabilityError::Malformed("u64 length"));
    }
    let v = crate::tlv::read_be(part.as_slice(), sp.value_start, 8);
    Ok((v, pos + sp.value_end))
}

impl Capability {
    pub fn new(grantee: Name, operation: Name, not_before: u64, not_after: u64) -> (r: Capability)
        ensures
            r.grantee == grantee,
            r.operation == operation,
            r.not_before == not_before,
            r.not_after == not_after,
    {
        Capability { grantee, operation, not_before, not_after }
    }

    /// The payload (the content of an issuer-signed `Data`).
    pub fn encode(&self) -> (r: Vec<u8>)
        ensures
            r@ == capability_wire(self.grantee@, self.operation@, self.not_before, self.not_after),
    {
        let mut body: Vec<u8> = Vec::new();
        let g = self.grantee.encode_to_tlv();
        write_tlv(&mut body, TLV_CAP_GRANTEE, g.as_slice());
        let o = self.operation.encode_to_tlv();
        write_tlv(&mut body, TLV_CAP_OPERATION, o.as_slice());
        let mut nb: Vec<u8> = Vec::new();
        crate::tlv::push_be(&mut nb, self.not_before, 8);
        write_tlv(&mut body, TLV_CAP_NOT_BEFORE, nb.as_slice());
        let mut na: Vec<u8> = Vec::new();
        crate::tlv::push_be(&mut na, self.not_after, 8);
        write_tlv(&mut body, TLV_CAP_NOT_AFTER, na.as_slice());
        let mut out: Vec<u8> = Vec::new();
        write_tlv(&mut out, TLV_CAPABILITY, body.as_slice());
        proof {
            assert(nb@ =~= be_bytes(self.not_before as nat, 8));
            assert(na@ =~= be_bytes(self.not_after as nat, 8));
            assert(out@ =~= capability_wire(self.grantee@, self.operation@, self.not_before, self.not_after));
        }
        out
    }

    /// Decode a payload.
    pub fn decode(bytes: &[u8]) -> (r: Result<Capability, CapabilityError>)
        ensures
            match capability_decoding(bytes@) {
                Err(m) => r == Err::<Capability, CapabilityError>(CapabilityError::Malformed(m)),
                Ok((g, op, nb, na)) => r matches Ok(c) && c.grantee@ == g && c.operation@ == op && c.not_before == nb
                    && c.not_after == na,
            },
    {
        proof {
            assert(bytes@.skip(0) =~= bytes@);
        }
        let sp = match read_tlv(bytes, 0) {
            Some(sp) => sp,
            None => return Err(CapabilityError::Malformed("top-level TLV")),
        };
        if sp.typ != TLV_CAPABILITY {
            return Err(CapabilityError::Malformed("not a capability"));
        }
        let a = sp.value_start;
        let end = sp.value_end;
        let ghost body = bytes@.subrange(a as int, end as int);
        let (grantee, p1) = match read_name_field(bytes, a, end, TLV_CAP_GRANTEE) {
            Ok(x) => x,
            Err(e) => return Err(e),
        };
        proof {
            assert(bytes@.subrange(p1 as int, end as int) =~= body.skip(p1 - a));
        }
        let (operation, p2) = match read_name_field(bytes, p1, end, TLV_CAP_OPERATION) {
            Ok(x) => x,
            Err(e) => return Err(e),
        };
        proof {
            assert(bytes@.subrange(p2 as int, end as int) =~= body.skip(p2 - a));
        }
        let (not_before, p3) = match read_u64_field(bytes, p2, end, TLV_CAP_NOT_BEFORE) {
            Ok(x) => x,
            Err(e) => return Err(e),
        };
        proof {
            assert(bytes@.subrange(p3 as int, end as int) =~= body.skip(p3 - a));
        }
        let (not_after, p4) = match read_u64_field(bytes, p3, end, TLV_CAP_NOT_AFTER) {
            Ok(x) => x,
            Err(e) => return Err(e),
        };
        Ok(Capability { grantee, operation, not_before, not_after })
    }

    /// The authorization predicate, to be called after the capability's and
    /// the request's signatures are verified: the signer is under the
    /// grantee, the operation under the authorized prefix, and `now_secs`
    /// in the window.
    pub fn authorizes(&self, request_signer: &Name, requested_op: &Name, now_secs: u64) -> (r: Result<(), CapabilityError>)
        ensures
            r == authorization(
                self.grantee@,
                self.operation@,
                self.not_before,
                self.not_after,
                request_signer@,
                requested_op@,
                now_secs,
            ),
    {
        if !request_signer.has_prefix(&self.grantee) {
            return Err(CapabilityError::NotGrantee);
        }
        if !requested_op.has_prefix(&self.operation) {
            return Err(CapabilityError::OutOfScope);
        }
        if now_secs < self.not_before {
            return Err(CapabilityError::NotYetValid);
        }
        if now_secs >= self.not_after {
            return Err(CapabilityError::Expired);
        }
        Ok(())
    }
}

proof fn lemma_name_field_encoded(field: u64, n: Seq<ComponentView>, rest: Seq<u8>)
    requires
        tlv_encode(field, name_tlv(n)).len() <= u64::MAX,
    ensures
        name_field(tlv_encode(field, name_tlv(n)) + rest, field) == Ok::<(Seq<ComponentView>, nat), &'static str>(
            (n, tlv_encode(field, name_tlv(n)).len()),
        ),
{
    reveal(name_field);
    let f = tlv_encode(field, name_tlv(n));
    assert(name_tlv(n).len() <= f.len());
    assert(tlv_encode_all(n).len() <= name_tlv(n).len());
    assert forall|i: int| 0 <= i < n.len() implies #[trigger] n[i].1.len() <= u64::MAX by {
        crate::tlv::lemma_encode_all_member_len(n, i);
    }
    crate::tlv::lemma_tlv_elements_roundtrip(n);
    crate::tlv::lemma_tlv_roundtrip(field, name_tlv(n), rest);
    crate::tlv::lemma_tlv_roundtrip(TLV_NAME, tlv_encode_all(n), Seq::empty());
    assert(name_tlv(n) + Seq::<u8>::empty() =~= name_tlv(n));
}

proof fn lemma_u64_field_encoded(field: u64, v: u64, rest: Seq<u8>)
    ensures
        u64_field(tlv_encode(field, be_bytes(v as nat, 8)) + rest, field) == Ok::<(u64, nat), &'static str>(
            (v, tlv_encode(field, be_bytes(v as nat, 8)).len()),
        ),
{
    reveal(u64_field);
    crate::tlv::lemma_pow256_values();
    crate::tlv::lemma_be_roundtrip(v as nat, 8);
    crate::tlv::lemma_tlv_roundtrip(field, be_bytes(v as nat, 8), rest);
}

/// Decoding an encoded capability gives it back, whenever its encoding
/// fits the TLV length field.
pub proof fn lemma_capability_roundtrip(g: Seq<ComponentView>, op: Seq<ComponentView>, nb: u64, na: u64)
    requires
        capability_wire(g, op, nb, na).len() <= u64::MAX,
    ensures
        capability_decoding(capability_wire(g, op, nb, na)) == Ok::<(Seq<ComponentView>, Seq<ComponentView>, u64, u64), &'static str>(
            (g, op, nb, na),
        ),
{
    let fg = tlv_encode(TLV_CAP_GRANTEE, name_tlv(g));
    let fo = tlv_encode(TLV_CAP_OPERATION, name_tlv(op));
    let fb = tlv_encode(TLV_CAP_NOT_BEFORE, be_bytes(nb as nat, 8));
    let fa = tlv_encode(TLV_CAP_NOT_AFTER, be_bytes(na as nat, 8));
    let body = fg + fo + fb + fa;
    let w = capability_wire(g, op, nb, na);
    assert(body.len() <= w.len());
    lemma_name_field_encoded(TLV_CAP_GRANTEE, g, fo + fb + fa);
    lemma_name_field_encoded(TLV_CAP_OPERATION, op, fb + fa);
    lemma_u64_field_encoded(TLV_CAP_NOT_BEFORE, nb, fa);
    lemma_u64_field_encoded(TLV_CAP_NOT_AFTER, na, Seq::empty());
    crate::tlv::lemma_tlv_roundtrip(TLV_CAPABILITY, body, Seq::empty());
    assert(w + Seq::<u8>::empty() =~= w);
    assert(body =~= fg + (fo + fb + fa));
    assert(body.skip(fg.len() as int) =~= fo + (fb + fa));
    assert(body.skip((fg.len() + fo.len()) as int) =~= fb + fa);
    assert(body.skip((fg.len() + fo.len() + fb.len()) as int) =~= fa + Seq::<u8>::empty());
}

} // verus!
