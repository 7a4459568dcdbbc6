//! NDN names: a sequence of typed components, with prefix tests, the
//! `KEY`-convention helpers, and the Name TLV wire form.

use vstd::prelude::*;

use crate::tlv::{
    be_bytes, lemma_tlv_elements_roundtrip, lemma_tlv_parse_progress, push_be, read_tlv, slice_to_vec, tlv_elements, tlv_encode,
    tlv_encode_all, write_tlv,
};

verus! {

/// TLV type of a Name.
pub const TLV_NAME: u64 = 0x07;

/// TLV type of a generic name component.
pub const GENERIC_COMPONENT: u64 = 0x08;

/// A component as a value: its TLV type and its bytes.
pub type ComponentView = (u64, Seq<u8>);

/// One name component.
#[derive(Clone, Debug, PartialEq, Eq, Hash)]
pub struct NameComponent {
    pub typ: u64,
    pub value: Vec<u8>,
}

impl View for NameComponent {
    type V = ComponentView;

    open spec fn view(&self) -> ComponentView {
        (self.typ, self.value@)
    }
}

/// The bytes `K`, `E`, `Y`.
pub open spec fn key_bytes() -> Seq<u8> {
    seq![0x4Bu8, 0x45u8, 0x59u8]
}

/// The bytes `C`, `A`.
pub open spec fn ca_bytes() -> Seq<u8> {
    seq![0x43u8, 0x41u8]
}

impl NameComponent {
    /// A generic (type 8) component.
    pub fn generic(value: Vec<u8>) -> (r: Self)
        ensures
            r@ == (GENERIC_COMPONENT, value@),
    {
        NameComponent { typ: GENERIC_COMPONENT, value }
    }

    /// A component of the given type.
    pub fn typed(typ: u64, value: Vec<u8>) -> (r: Self)
        ensures
            r@ == (typ, value@),
    {
        NameComponent { typ, value }
    }

    pub fn copy(&self) -> (r: Self)
        ensures
            r@ == self@,
    {
        NameComponent { typ: self.typ, value: copy_bytes(&self.value) }
    }

    /// Equality of type and bytes.
    pub fn same_as(&self, other: &NameComponent) -> (r: bool)
        ensures
            r == (self@ == other@),
    {
        self.typ == other.typ && bytes_eq(&self.value, &other.value)
    }

    /// Whether the component's bytes are `b`, whatever its type.
    pub fn value_is(&self, b: &[u8]) -> (r: bool)
        ensures
            r == (self.value@ == b@),
    {
        bytes_eq(&self.value, b)
    }
}

/// A fresh copy of `v`.
pub fn copy_bytes(v: &Vec<u8>) -> (r: Vec<u8>)
    ensures
        r@ == v@,
{
    slice_to_vec(v.as_slice(), 0, v.len())
}

/// Byte-wise equality.
pub fn bytes_eq(a: &[u8], b: &[u8]) -> (r: bool)
    ensures
        r == (a@ == b@),
{
    if a.len() != b.len() {
        return false;
    }
    let mut i: usize = 0;
    while i < a.len()
        invariant
            a@.len() == b@.len(),
            i <= a@.len(),
            forall|j: int| 0 <= j < i ==> a@[j] == b@[j],
        decreases a@.len() - i,
    {
        if a[i] != b[i] {
            return false;
        }
        i = i + 1;
    }
    proof {
        assert(a@ =~= b@);
    }
    true
}

/// An NDN name.
#[derive(Clone, Debug, PartialEq, Eq, Hash)]
pub struct Name {
    pub components: Vec<NameComponent>,
}

impl View for Name {
    type V = Seq<ComponentView>;

    open spec fn view(&self) -> Seq<ComponentView> {
        self.components@.map_values(|c: NameComponent| c@)
    }
}

/// `prefix` is a prefix of `name` (every name is under the root).
pub open spec fn spec_has_prefix(name: Seq<ComponentView>, prefix: Seq<ComponentView>) -> bool {
    prefix.len() <= name.len() && name.subrange(0, prefix.len() as int) == prefix
}

/// Position of the last component whose bytes are `KEY`, if any.
pub open spec fn spec_last_key_pos(name: Seq<ComponentView>) -> Option<int>
    decreases name.len(),
{
    if name.len() == 0 {
        None
    } else if name.last().1 == key_bytes() {
        Some(name.len() - 1)
    } else {
        spec_last_key_pos(name.drop_last())
    }
}

/// Position of the last generic `KEY` component, if any.
pub open spec fn spec_last_generic_key_pos(name: Seq<ComponentView>) -> Option<int>
    decreases name.len(),
{
    if name.len() == 0 {
        None
    } else if name.last() == (GENERIC_COMPONENT, key_bytes()) {
        Some(name.len() - 1)
    } else {
        spec_last_generic_key_pos(name.drop_last())
    }
}

/// The identity a key or certificate name belongs to: every component
/// before the last `KEY` (`/alice/KEY/k1/...` is `/alice`).
pub open spec fn spec_identity_of(name: Seq<ComponentView>) -> Option<Seq<ComponentView>> {
    match spec_last_key_pos(name) {
        None => None,
        Some(p) => Some(name.subrange(0, p)),
    }
}

/// The key name `<identity>/KEY/<key-id>` of a key or certificate name.
pub open spec fn spec_key_name_of(name: Seq<ComponentView>) -> Option<Seq<ComponentView>> {
    match spec_last_key_pos(name) {
        None => None,
        Some(p) => if name.len() < p + 2 {
            None
        } else {
            Some(name.subrange(0, p + 2))
        },
    }
}

/// A key name without its `/KEY/...` suffix; unchanged when it has no
/// generic `KEY` component after the first position.
pub open spec fn spec_strip_key_suffix(name: Seq<ComponentView>) -> Seq<ComponentView> {
    match spec_last_generic_key_pos(name) {
        Some(p) => if p > 0 {
            name.subrange(0, p)
        } else {
            name
        },
        None => name,
    }
}

/// A CA prefix without a trailing generic `CA` component.
pub open spec fn spec_strip_ca_suffix(name: Seq<ComponentView>) -> Seq<ComponentView> {
    if name.len() > 0 && name.last() == (GENERIC_COMPONENT, ca_bytes()) {
        name.drop_last()
    } else {
        name
    }
}

pub proof fn lemma_last_key_pos_range(name: Seq<ComponentView>)
    ensures
        spec_last_key_pos(name) matches Some(p) ==> 0 <= p < name.len() && name[p].1
            == key_bytes(),
        spec_last_key_pos(name) is None ==> forall|i: int|
            0 <= i < name.len() ==> name[i].1 != key_bytes(),
    decreases name.len(),
{
    if name.len() > 0 {
        lemma_last_key_pos_range(name.drop_last());
        assert(forall|i: int| 0 <= i < name.len() - 1 ==> name[i] == name.drop_last()[i]);
    }
}

pub proof fn lemma_last_generic_key_pos_range(name: Seq<ComponentView>)
    ensures
        spec_last_generic_key_pos(name) matches Some(p) ==> 0 <= p < name.len(),
    decreases name.len(),
{
    if name.len() > 0 {
        lemma_last_generic_key_pos_range(name.drop_last());
    }
}

impl Name {
    /// The root name `/`.
    pub fn root() -> (r: Name)
        ensures
            r@ == Seq::<ComponentView>::empty(),
    {
        let r = Name { components: Vec::new() };
        proof {
            assert(r@ =~= Seq::<ComponentView>::empty());
        }
        r
    }

    pub fn from_components(components: Vec<NameComponent>) -> (r: Name)
        ensures
            r.components == components,
    {
        Name { components }
    }

    pub fn len(&self) -> (r: usize)
        ensures
            r == self@.len(),
    {
        self.components.len()
    }

    pub fn copy(&self) -> (r: Name)
        ensures
            r@ == self@,
    {
        self.prefix(self.components.len())
    }

    /// The first `n` components.
    pub fn prefix(&self, n: usize) -> (r: Name)
        requires
            n <= self@.len(),
        ensures
            r@ == self@.subrange(0, n as int),
    {
        let mut out: Vec<NameComponent> = Vec::new();
        let mut i: usize = 0;
        while i < n
            invariant
                n <= self.components@.len(),
                i <= n,
                out@.len() == i,
                forall|j: int| 0 <= j < i ==> #[trigger] out@[j]@ == self.components@[j]@,
            decreases n - i,
        {
            out.push(self.components[i].copy());
            i = i + 1;
        }
        let r = Name { components: out };
        proof {
            assert(r@ =~= self@.subrange(0, n as int));
        }
        r
    }

    /// This name with one more component.
    pub fn append_component(self, c: NameComponent) -> (r: Name)
        ensures
            r@ == self@.push(c@),
    {
        let ghost before = self@;
        let mut comps = self.components;
        comps.push(c);
        let r = Name { components: comps };
        proof {
            assert(r@ =~= before.push(c@));
        }
        r
    }

    /// This name with a generic component holding `value`.
    pub fn append(self, value: &[u8]) -> (r: Name)
        ensures
            r@ == self@.push((GENERIC_COMPONENT, value@)),
    {
        let v = slice_to_vec(value, 0, value.len());
        proof {
            assert(v@ =~= value@);
        }
        self.append_component(NameComponent::generic(v))
    }

    /// Component-wise equality.
    pub fn same_as(&self, other: &Name) -> (r: bool)
        ensures
            r == (self@ == other@),
    {
        if self.components.len() != other.components.len() {
            return false;
        }
        let mut i: usize = 0;
        while i < self.components.len()
            invariant
                self@.len() == other@.len(),
                i <= self@.len(),
                forall|j: int| 0 <= j < i ==> self@[j] == other@[j],
            decreases self@.len() - i,
        {
            if !self.components[i].same_as(&other.components[i]) {
                proof {
                    assert(self@[i as int] != other@[i as int]);
                }
                return false;
            }
            i = i + 1;
        }
        proof {
            assert(self@ =~= other@);
        }
        true
    }

    /// Whether `prefix` is a prefix of this name.
    pub fn has_prefix(&self, prefix: &Name) -> (r: bool)
        ensures
            r == spec_has_prefix(self@, prefix@),
    {
        if prefix.components.len() > self.components.len() {
            return false;
        }
        let mut i: usize = 0;
        while i < prefix.components.len()
            invariant
                prefix@.len() <= self@.len(),
                i <= prefix@.len(),
                forall|j: int| 0 <= j < i ==> self@[j] == prefix@[j],
            decreases prefix@.len() - i,
        {
            if !self.components[i].same_as(&prefix.components[i]) {
                proof {
                    assert(self@.subrange(0, prefix@.len() as int)[i as int] != prefix@[i as int]);
                }
                return false;
            }
            i = i + 1;
        }
        proof {
            assert(self@.subrange(0, prefix@.len() as int) =~= prefix@);
        }
        true
    }

    /// Position of the last component whose bytes are `KEY`.
    pub fn last_key_pos(&self) -> (r: Option<usize>)
        ensures
            match spec_last_key_pos(self@) {
                None => r is None,
                Some(p) => r matches Some(q) && q == p,
            },
    {
        let key: [u8; 3] = [0x4B, 0x45, 0x59];
        let ghost kb = key@;
        proof {
            assert(kb =~= key_bytes());
        }
        let mut i = self.components.len();
        proof {
            assert(self@.subrange(0, i as int) =~= self@);
        }
        while i > 0
            invariant
                i <= self@.len(),
                kb == key_bytes(),
                key@ == kb,
                spec_last_key_pos(self@) == spec_last_key_pos(self@.subrange(0, i as int)),
            decreases i,
        {
            let ghost pre = self@.subrange(0, i as int);
            if self.components[i - 1].value_is(&key) {
                return Some(i - 1);
            }
            proof {
                assert(pre.drop_last() =~= self@.subrange(0, i - 1));
            }
            i = i - 1;
        }
        None
    }

    /// Position of the last generic `KEY` component.
    pub fn last_generic_key_pos(&self) -> (r: Option<usize>)
        ensures
            match spec_last_generic_key_pos(self@) {
                None => r is None,
                Some(p) => r matches Some(q) && q == p,
            },
    {
        let key: [u8; 3] = [0x4B, 0x45, 0x59];
        proof {
            assert(key@ =~= key_bytes());
        }
        let mut i = self.components.len();
        proof {
            assert(self@.subrange(0, i as int) =~= self@);
        }
        while i > 0
            invariant
                i <= self@.len(),
                key@ == key_bytes(),
                spec_last_generic_key_pos(self@) == spec_last_generic_key_pos(
                    self@.subrange(0, i as int),
                ),
            decreases i,
        {
            let ghost pre = self@.subrange(0, i as int);
            let c = &self.components[i - 1];
            if c.typ == GENERIC_COMPONENT && c.value_is(&key) {
                return Some(i - 1);
            }
            proof {
                assert(pre.drop_last() =~= self@.subrange(0, i - 1));
            }
            i = i - 1;
        }
        None
    }

    /// The identity this key or certificate name belongs to.
    pub fn identity_of(&self) -> (r: Option<Name>)
        ensures
            match spec_identity_of(self@) {
                None => r is None,
                Some(id) => r matches Some(n) && n@ == id,
            },
    {
        proof {
            lemma_last_key_pos_range(self@);
        }
        match self.last_key_pos() {
            None => None,
            Some(p) => {
                assert(spec_last_key_pos(self@) == Some(p as int));
                Some(self.prefix(p))
            },
        }
    }

    /// The key name `<identity>/KEY/<key-id>` of this key or certificate name.
    pub fn key_name_of(&self) -> (r: Option<Name>)
        ensures
            match spec_key_name_of(self@) {
                None => r is None,
                Some(k) => r matches Some(n) && n@ == k,
            },
    {
        proof {
            lemma_last_key_pos_range(self@);
        }
        match self.last_key_pos() {
            None => None,
            Some(p) => {
                if self.components.len() - p < 2 {
                    None
                } else {
                    Some(self.prefix(p + 2))
                }
            },
        }
    }

    /// This key name without its `/KEY/...` suffix.
    pub fn strip_key_suffix(&self) -> (r: Name)
        ensures
            r@ == spec_strip_key_suffix(self@),
    {
        proof {
            lemma_last_generic_key_pos_range(self@);
        }
        match self.last_generic_key_pos() {
            Some(p) => {
                assert(spec_last_generic_key_pos(self@) == Some(p as int));
                if p > 0 {
                    self.prefix(p)
                } else {
                    self.copy()
                }
            },
            None => self.copy(),
        }
    }

    /// This CA prefix without a trailing `CA` component.
    pub fn strip_ca_suffix(&self) -> (r: Name)
        ensures
            r@ == spec_strip_ca_suffix(self@),
    {
        let ca: [u8; 2] = [0x43, 0x41];
        proof {
            assert(ca@ =~= ca_bytes());
        }
        let n = self.components.len();
        if n > 0 {
            let last = &self.components[n - 1];
            if last.typ == GENERIC_COMPONENT && last.value_is(&ca) {
                let r = self.prefix(n - 1);
                proof {
                    assert(self@.drop_last() =~= self@.subrange(0, n - 1));
                }
                return r;
            }
        }
        self.copy()
    }

    /// The value bytes of the Name TLV (its components, each as a TLV).
    pub fn encode_value(&self) -> (r: Vec<u8>)
        ensures
            r@ == tlv_encode_all(self@),
    {
        let mut out: Vec<u8> = Vec::new();
        let mut i: usize = 0;
        proof {
            assert(self@.subrange(0, self@.len() as int) =~= self@);
            assert(out@ + tlv_encode_all(self@) =~= tlv_encode_all(self@));
        }
        while i < self.components.len()
            invariant
                i <= self@.len(),
                out@ + tlv_encode_all(self@.subrange(i as int, self@.len() as int))
                    == tlv_encode_all(self@),
            decreases self@.len() - i,
        {
            let ghost rest = self@.subrange(i as int, self@.len() as int);
            let c = &self.components[i];
            write_tlv(&mut out, c.typ, c.value.as_slice());
            proof {
                assert(rest.drop_first() =~= self@.subrange(i + 1, self@.len() as int));
                assert(rest[0] == c@);
            }
            i = i + 1;
            proof {
                assert(out@ + tlv_encode_all(self@.subrange(i as int, self@.len() as int))
                    =~= tlv_encode_all(self@));
            }
        }
        proof {
            assert(self@.subrange(self@.len() as int, self@.len() as int) =~= Seq::<
                ComponentView,
            >::empty());
            assert(out@ =~= tlv_encode_all(self@));
        }
        out
    }

    /// The full Name TLV (type 7).
    pub fn encode_to_tlv(&self) -> (r: Vec<u8>)
        ensures
            r@ == tlv_encode(TLV_NAME, tlv_encode_all(self@)),
    {
        let v = self.encode_value();
        let mut out: Vec<u8> = Vec::new();
        write_tlv(&mut out, TLV_NAME, v.as_slice());
        proof {
            assert(out@ =~= tlv_encode(TLV_NAME, tlv_encode_all(self@)));
        }
        out
    }

    /// Decode the value bytes of a Name TLV into a name.
    pub fn decode(value: &[u8]) -> (r: Option<Name>)
        ensures
            match tlv_elements(value@) {
                None => r is None,
                Some(els) => r matches Some(n) && n@ == els,
            },
    {
        let mut comps: Vec<NameComponent> = Vec::new();
        let mut pos: usize = 0;
        proof {
            assert(value@.skip(0) =~= value@);
            match tlv_elements(value@) {
                None => {},
                Some(rest) => {
                    assert(comps@.map_values(|c: NameComponent| c@) + rest =~= rest);
                },
            }
        }
        while pos < value.len()
            invariant
                pos <= value@.len(),
                tlv_elements(value@) == match tlv_elements(value@.skip(pos as int)) {
                    None => None,
                    Some(rest) => Some(comps@.map_values(|c: NameComponent| c@) + rest),
                },
            decreases value@.len() - pos,
        {
            let ghost t = value@.skip(pos as int);
            match read_tlv(value, pos) {
                None => {
                    return None;
                },
                Some(sp) => {
                    proof {
                        lemma_tlv_parse_progress(t);
                    }
                    let c = NameComponent::typed(
                        sp.typ,
                        slice_to_vec(value, sp.value_start, sp.value_end),
                    );
                    let ghost old_comps = comps@;
                    comps.push(c);
                    proof {
                        assert(value@.skip(sp.value_end as int) =~= t.skip(
                            (sp.value_end - pos) as int,
                        ));
                        assert(comps@.map_values(|c: NameComponent| c@) =~= old_comps.map_values(
                            |c: NameComponent| c@,
                        ).push(c@));
                        match tlv_elements(value@.skip(sp.value_end as int)) {
                            None => {},
                            Some(rest) => {
                                assert(old_comps.map_values(|c: NameComponent| c@) + (seq![c@]
                                    + rest) =~= comps@.map_values(|c: NameComponent| c@) + rest);
                            },
                        }
                    }
                    pos = sp.value_end;
                },
            }
        }
        proof {
            assert(value@.skip(pos as int) =~= Seq::<u8>::empty());
            assert(comps@.map_values(|c: NameComponent| c@) + Seq::<ComponentView>::empty()
                =~= comps@.map_values(|c: NameComponent| c@));
        }
        Some(Name { components: comps })
    }
}

/// Decoding the encoded value of a name gives the name back.
pub proof fn lemma_name_value_roundtrip(name: Seq<ComponentView>)
    requires
        forall|i: int| 0 <= i < name.len() ==> #[trigger] name[i].1.len() <= u64::MAX,
    ensures
        tlv_elements(tlv_encode_all(name)) == Some(name),
{
    lemma_tlv_elements_roundtrip(name);
}

/// TLV type of a segment name component.
pub const SEGMENT_COMPONENT: u64 = 0x32;

/// TLV type of a version name component.
pub const VERSION_COMPONENT: u64 = 0x36;

/// The shortest NDN NonNegativeInteger encoding of `x`: one, two, four or
/// eight big-endian bytes.
pub open spec fn nonneg_bytes(x: u64) -> Seq<u8> {
    if x < 0x100 {
        be_bytes(x as nat, 1)
    } else if x < 0x1_0000 {
        be_bytes(x as nat, 2)
    } else if x < 0x1_0000_0000 {
        be_bytes(x as nat, 4)
    } else {
        be_bytes(x as nat, 8)
    }
}

/// A component of type `typ` holding the NonNegativeInteger `v`.
pub fn nonneg_component(typ: u64, v: u64) -> (r: NameComponent)
    ensures
        r@ == (typ, nonneg_bytes(v)),
{
    let mut bytes: Vec<u8> = Vec::new();
    let n: usize = if v < 0x100 {
        1
    } else if v < 0x1_0000 {
        2
    } else if v < 0x1_0000_0000 {
        4
    } else {
        8
    };
    push_be(&mut bytes, v, n);
    proof {
        assert(bytes@ =~= nonneg_bytes(v));
    }
    NameComponent::typed(typ, bytes)
}

} // verus!
