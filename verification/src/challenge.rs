//! NDNCERT challenges: the state a CA keeps between rounds, the outcomes of a
//! round, and the handlers (no-op, one-time token, possession of a trusted
//! key, e-mail code, YubiKey HOTP).
//!
//! Challenge state and request parameters are JSON objects on the wire; here
//! they are [`JsonFields`]: the members whose values are strings or
//! non-negative integers, which is all that the handlers read.

use vstd::prelude::*;

use dashmap::DashMap;

use crate::attestation::AttestationSet;
use crate::name::{spec_has_prefix, ComponentView, Name};
use crate::name_uri::spec_uri_text;
use crate::ndncert::{CertError, CertRequest};
use crate::text::{concat3, push_text, str_eq, string_from_static, utf8_bytes};

verus! {

/// A member value of a JSON object, as far as the handlers read it.
#[derive(Debug, Clone, PartialEq, Eq)]
pub enum JsonScalar {
    Str(String),
    /// A non-negative integer that fits in 64 bits.
    Uint(u64),
    /// Anything else (a boolean, a negative or fractional number, null, an
    /// array or an object).
    Other,
}

pub enum ScalarView {
    Str(Seq<char>),
    Uint(u64),
    Other,
}

impl View for JsonScalar {
    type V = ScalarView;

    open spec fn view(&self) -> ScalarView {
        match self {
            JsonScalar::Str(s) => ScalarView::Str(s@),
            JsonScalar::Uint(n) => ScalarView::Uint(*n),
            JsonScalar::Other => ScalarView::Other,
        }
    }
}

/// The members of a JSON object, one per name.
#[derive(Debug, Clone, PartialEq, Eq)]
pub struct JsonFields {
    pub entries: Vec<(String, JsonScalar)>,
}

pub type FieldsView = Seq<(Seq<char>, ScalarView)>;

impl View for JsonFields {
    type V = FieldsView;

    open spec fn view(&self) -> FieldsView {
        self.entries@.map_values(|e: (String, JsonScalar)| (e.0@, e.1@))
    }
}

/// The value of the first member named `key`.
pub open spec fn member(f: FieldsView, key: Seq<char>) -> Option<ScalarView>
    decreases f.len(),
{
    if f.len() == 0 {
        None
    } else if f[0].0 == key {
        Some(f[0].1)
    } else {
        member(f.drop_first(), key)
    }
}

/// `get(key).and_then(as_str)`.
pub open spec fn member_str(f: FieldsView, key: Seq<char>) -> Option<Seq<char>> {
    match member(f, key) {
        Some(ScalarView::Str(s)) => Some(s),
        _ => None,
    }
}

/// `get(key).and_then(as_u64)`.
pub open spec fn member_u64(f: FieldsView, key: Seq<char>) -> Option<u64> {
    match member(f, key) {
        Some(ScalarView::Uint(n)) => Some(n),
        _ => None,
    }
}

impl JsonFields {
    pub fn new() -> (r: JsonFields)
        ensures
            r@.len() == 0,
    {
        JsonFields { entries: Vec::new() }
    }

    /// Position of the first member named `key`.
    fn find(&self, key: &str) -> (r: Option<usize>)
        ensures
            match r {
                None => member(self@, key@) is None,
                Some(i) => i < self.entries@.len() && member(self@, key@) == Some(self.entries@[i as int].1@) && self.entries@[i as int].0@ == key@,
            },
    {
        let mut i: usize = 0;
        proof {
            assert(self@.skip(0) =~= self@);
        }
        while i < self.entries.len()
            invariant
                i <= self.entries@.len(),
                member(self@, key@) == member(self@.skip(i as int), key@),
            decreases self.entries@.len() - i,
        {
            let ghost t = self@.skip(i as int);
            proof {
                assert(t[0] == (self.entries@[i as int].0@, self.entries@[i as int].1@));
                assert(t.drop_first() =~= self@.skip(i + 1));
            }
            if str_eq(self.entries[i].0.as_str(), key) {
                return Some(i);
            }
            i = i + 1;
        }
        proof {
            assert(self@.skip(i as int).len() == 0);
        }
        None
    }

    /// `get(key).and_then(as_str)`.
    pub fn get_str(&self, key: &str) -> (r: Option<String>)
        ensures
            match member_str(self@, key@) {
                None => r is None,
                Some(s) => r matches Some(t) && t@ == s,
            },
    {
        match self.find(key) {
            None => None,
            Some(i) => match &self.entries[i].1 {
                JsonScalar::Str(s) => Some(s.clone()),
                _ => None,
            },
        }
    }

    /// `get(key).and_then(as_u64)`.
    pub fn get_u64(&self, key: &str) -> (r: Option<u64>)
        ensures
            r == member_u64(self@, key@),
    {
        match self.find(key) {
            None => None,
            Some(i) => match &self.entries[i].1 {
                JsonScalar::Uint(n) => Some(*n),
                _ => None,
            },
        }
    }
}

/// The state a CA keeps for a request between challenge rounds.
#[derive(Debug, Clone, PartialEq, Eq)]
pub struct ChallengeState {
    pub challenge_type: String,
    pub data: JsonFields,
}

/// The outcome of one challenge round.
#[derive(Debug, Clone, PartialEq, Eq)]
pub enum ChallengeOutcome {
    /// The challenge is satisfied; the attestation (if the handler supplies
    /// one) records how.
    Approved { attestation: Option<AttestationSet> },
    /// Another round is needed.
    Pending { status_message: String, remaining_tries: u8, remaining_time_secs: u32, next_state: ChallengeState },
    /// The challenge failed.
    Denied(String),
}

// ---------------------------------------------------------------------------
// No-op
// ---------------------------------------------------------------------------

/// Approve every request. For demos and tests only.
#[derive(Debug, Clone, Copy, PartialEq, Eq, Default)]
pub struct NopChallenge;

impl NopChallenge {
    pub fn new() -> (r: NopChallenge)
        ensures
            r == NopChallenge,
    {
        NopChallenge
    }

    pub fn challenge_type(&self) -> (r: &'static str)
        ensures
            r@ == "nop"@,
    {
        "nop"
    }

    /// The state is empty.
    pub fn begin(&self, req: &CertRequest) -> (r: ChallengeState)
        ensures
            r.challenge_type@ == "nop"@,
            r.data@.len() == 0,
    {
        ChallengeState { challenge_type: string_from_static("nop"), data: JsonFields::new() }
    }

    /// Every round is approved.
    pub fn verify(&self, state: &ChallengeState, params: &JsonFields) -> (r: ChallengeOutcome)
        ensures
            r == (ChallengeOutcome::Approved { attestation: None }),
    {
        ChallengeOutcome::Approved { attestation: None }
    }
}

// ---------------------------------------------------------------------------
// One-time tokens
// ---------------------------------------------------------------------------

/// Bounds attached to a minted token.
#[derive(Debug, Clone, PartialEq, Eq, Default)]
pub struct TokenMeta {
    /// Absolute expiry in ns since the UNIX epoch; `None` = never expires.
    pub expires_at_ns: Option<u64>,
    /// Name prefix the issued certificate must fall under; `None` = unscoped.
    pub scope: Option<Name>,
}

pub struct TokenMetaView {
    pub expires_at_ns: Option<u64>,
    pub scope: Option<Seq<ComponentView>>,
}

impl View for TokenMeta {
    type V = TokenMetaView;

    open spec fn view(&self) -> TokenMetaView {
        TokenMetaView {
            expires_at_ns: self.expires_at_ns,
            scope: match self.scope {
                Some(n) => Some(n@),
                None => None,
            },
        }
    }
}

/// Outcome of checking a presented token against the store.
#[derive(Debug, PartialEq, Eq)]
pub enum TokenCheck {
    /// Valid and consumed.
    Accepted,
    /// Not in the store (never issued, or already redeemed).
    NotFound,
    /// Past its TTL (reaped on this check).
    Expired,
    /// The requested name is not under the token's scope.
    OutOfScope(Box<Name>),
}

pub enum CheckView {
    Accepted,
    NotFound,
    Expired,
    OutOfScope(Seq<ComponentView>),
}

impl View for TokenCheck {
    type V = CheckView;

    open spec fn view(&self) -> CheckView {
        match self {
            TokenCheck::Accepted => CheckView::Accepted,
            TokenCheck::NotFound => CheckView::NotFound,
            TokenCheck::Expired => CheckView::Expired,
            TokenCheck::OutOfScope(n) => CheckView::OutOfScope((**n)@),
        }
    }
}

/// What a token table holds: each minted token with its bounds.
pub uninterp spec fn token_entries(m: DashMap<String, TokenMeta>) -> Map<Seq<char>, TokenMeta>;

/// `DashMap::new` for the token table: empty.
#[verifier::external_body]
fn token_table() -> (r: DashMap<String, TokenMeta>)
    ensures
        token_entries(r).dom() == Set::<Seq<char>>::empty(),
{
    DashMap::new()
}

/// `DashMap::insert`: the entry for `k` becomes `v`.
#[verifier::external_body]
fn token_insert(m: &mut DashMap<String, TokenMeta>, k: String, v: TokenMeta)
    ensures
        token_entries(*final(m)) == token_entries(*old(m)).insert(k@, v),
{
    m.insert(k, v);
}

/// `DashMap::get`, the entry copied out.
#[verifier::external_body]
fn token_get(m: &DashMap<String, TokenMeta>, k: &str) -> (r: Option<TokenMeta>)
    ensures
        r == (if token_entries(*m).dom().contains(k@) {
            Some(token_entries(*m)[k@])
        } else {
            None
        }),
{
    m.get(k).map(|e| e.value().clone())
}

/// `DashMap::remove`: the entry for `k` leaves.
#[verifier::external_body]
fn token_remove(m: &mut DashMap<String, TokenMeta>, k: &str)
    ensures
        token_entries(*final(m)) == token_entries(*old(m)).remove(k@),
{
    m.remove(k);
}

/// `DashMap::len`: the number of entries.
#[verifier::external_body]
fn token_count(m: &DashMap<String, TokenMeta>) -> (r: usize)
    ensures
        r == token_entries(*m).dom().len(),
{
    m.len()
}

/// Minted tokens, each with its bounds; single-use.
pub struct TokenStore {
    tokens: DashMap<String, TokenMeta>,
}

pub type StoreView = Map<Seq<char>, TokenMetaView>;

impl View for TokenStore {
    type V = StoreView;

    closed spec fn view(&self) -> StoreView {
        token_entries(self.tokens).map_values(|m: TokenMeta| m@)
    }
}

/// The bounds of `token`, if it is in the store.
pub open spec fn token_meta(v: StoreView, token: Seq<char>) -> Option<TokenMetaView> {
    if v.dom().contains(token) {
        Some(v[token])
    } else {
        None
    }
}

/// The store without `token`.
pub open spec fn without_token(v: StoreView, token: Seq<char>) -> StoreView {
    v.remove(token)
}

/// The bounds of an unbounded token.
pub open spec fn unbounded() -> TokenMetaView {
    TokenMetaView { expires_at_ns: None, scope: None }
}

/// What checking `token` against bounds `meta` at time `now_ns` gives.
pub open spec fn check_view(meta: Option<TokenMetaView>, request: Option<Seq<ComponentView>>, now_ns: u64) -> CheckView {
    match meta {
        None => CheckView::NotFound,
        Some(m) => if m.expires_at_ns matches Some(exp) && now_ns > exp {
            CheckView::Expired
        } else {
            match m.scope {
                Some(scope) => if request matches Some(n) && spec_has_prefix(n, scope) {
                    CheckView::Accepted
                } else {
                    CheckView::OutOfScope(scope)
                },
                None => CheckView::Accepted,
            }
        },
    }
}

/// What a consume with no scope check gives: a present, unexpired token is
/// accepted whatever its scope.
pub open spec fn unscoped_check(meta: Option<TokenMetaView>, now_ns: u64) -> CheckView {
    match meta {
        None => CheckView::NotFound,
        Some(m) => if m.expires_at_ns matches Some(exp) && now_ns > exp {
            CheckView::Expired
        } else {
            CheckView::Accepted
        },
    }
}

/// Whether the check removes the token: it was redeemed or it expired.
pub open spec fn check_consumes(c: CheckView) -> bool {
    c is Accepted || c is Expired
}

/// The bounds a token minted at `now_ns` carries.
pub open spec fn minted_meta(ttl_ns: Option<u64>, scope: Option<Name>, now_ns: u64) -> TokenMetaView {
    TokenMetaView {
        expires_at_ns: match ttl_ns {
            Some(d) => Some(if now_ns + d > u64::MAX { u64::MAX } else { (now_ns + d) as u64 }),
            None => None,
        },
        scope: match scope {
            Some(n) => Some(n@),
            None => None,
        },
    }
}

/// The tokens of a list, as a set of texts.
pub open spec fn token_texts(tokens: Seq<String>) -> Set<Seq<char>> {
    Set::new(|t: Seq<char>| exists|i: int| 0 <= i < tokens.len() && #[trigger] tokens[i]@ == t)
}

/// A store with every token of the list added unbounded.
pub open spec fn with_unbounded(v: StoreView, tokens: Seq<String>) -> StoreView {
    v.union_prefer_right(Map::new(|t: Seq<char>| token_texts(tokens).contains(t), |t: Seq<char>| unbounded()))
}

impl TokenStore {
    pub fn new() -> (r: TokenStore)
        ensures
            r@ == Map::<Seq<char>, TokenMetaView>::empty(),
    {
        let r = TokenStore { tokens: token_table() };
        proof {
            assert(token_entries(r.tokens).dom() =~= Set::<Seq<char>>::empty());
            assert(r@ =~= Map::<Seq<char>, TokenMetaView>::empty());
        }
        r
    }

    /// Remove `token`.
    fn remove_token(&mut self, token: &str)
        ensures
            final(self)@ == without_token(old(self)@, token@),
    {
        token_remove(&mut self.tokens, token);
        proof {
            assert(self@ =~= without_token(old(self)@, token@));
        }
    }

    /// The bounds of `token`, if it is in the store.
    fn lookup(&self, token: &str) -> (r: Option<TokenMeta>)
        ensures
            match token_meta(self@, token@) {
                None => r is None,
                Some(m) => r matches Some(x) && x@ == m,
            },
    {
        token_get(&self.tokens, token)
    }

    fn insert(&mut self, token: String, meta: TokenMeta)
        ensures
            final(self)@ == old(self)@.insert(token@, meta@),
    {
        let ghost k = token@;
        let ghost mv = meta@;
        token_insert(&mut self.tokens, token, meta);
        proof {
            assert(self@ =~= old(self)@.insert(k, mv));
        }
    }

    /// Add an unbounded token (no TTL, no scope).
    pub fn add(&mut self, token: String)
        ensures
            final(self)@ == old(self)@.insert(token@, unbounded()),
    {
        self.insert(token, TokenMeta { expires_at_ns: None, scope: None });
    }

    /// Add several unbounded tokens.
    pub fn add_many(&mut self, tokens: Vec<String>)
        ensures
            final(self)@ == with_unbounded(old(self)@, tokens@),
    {
        let ghost all = tokens@;
        let ghost orig = self@;
        let mut i: usize = 0;
        proof {
            assert(self@ =~= with_unbounded(orig, all.take(0)));
        }
        while i < tokens.len()
            invariant
                all == tokens@,
                i <= all.len(),
                self@ == with_unbounded(orig, all.take(i as int)),
            decreases all.len() - i,
        {
            let ghost before = self@;
            let t = tokens[i].clone();
            self.add(t);
            proof {
                let a = all.take(i as int);
                let b = all.take(i + 1);
                assert forall|u: Seq<char>| #[trigger] token_texts(b).contains(u) == (token_texts(a).contains(u) || u
                    == all[i as int]@) by {
                    if token_texts(b).contains(u) {
                        let j = choose|j: int| 0 <= j < b.len() && #[trigger] b[j]@ == u;
                        if j < i {
                            assert(a[j]@ == u);
                        }
                    }
                    if token_texts(a).contains(u) {
                        let j = choose|j: int| 0 <= j < a.len() && #[trigger] a[j]@ == u;
                        assert(b[j]@ == u);
                    }
                    if u == all[i as int]@ {
                        assert(b[i as int]@ == u);
                    }
                }
                assert(self@ =~= with_unbounded(orig, b));
            }
            i = i + 1;
        }
        proof {
            assert(all.take(i as int) =~= all);
        }
    }

    /// Mint a token bounded by an optional TTL (in nanoseconds, from `now_ns`)
    /// and an optional name scope.
    pub fn add_scoped_at(&mut self, token: String, ttl_ns: Option<u64>, scope: Option<Name>, now_ns: u64)
        ensures
            final(self)@ == old(self)@.insert(token@, minted_meta(ttl_ns, scope, now_ns)),
    {
        let expires_at_ns = match ttl_ns {
            Some(d) => Some(now_ns.saturating_add(d)),
            None => None,
        };
        self.insert(token, TokenMeta { expires_at_ns, scope });
    }

    /// Mint a token bounded by an optional TTL (in nanoseconds, from now)
    /// and an optional name scope.
    pub fn add_scoped(&mut self, token: String, ttl_ns: Option<u64>, scope: Option<Name>)
        ensures
            exists|now: u64| final(self)@ == old(self)@.insert(token@, #[trigger] minted_meta(ttl_ns, scope, now)),
    {
        let now = crate::clock::now_ns();
        self.add_scoped_at(token, ttl_ns, scope, now);
    }

    /// Check `token` at time `now_ns`: it must be present, unexpired, and (if
    /// scoped) the request name must be under its scope. A valid token is
    /// consumed and an expired one reaped; otherwise the store is unchanged.
    pub fn check_and_consume_at(&mut self, token: &str, request_name: Option<&Name>, now_ns: u64) -> (r: TokenCheck)
        ensures
            r@ == check_view(token_meta(old(self)@, token@), crate::ndncert::opt_name(request_name), now_ns),
            final(self)@ == if check_consumes(r@) {
                without_token(old(self)@, token@)
            } else {
                old(self)@
            },
    {
        let meta = match self.lookup(token) {
            Some(m) => m,
            None => return TokenCheck::NotFound,
        };
        if let Some(exp) = meta.expires_at_ns {
            if now_ns > exp {
                self.remove_token(token);
                return TokenCheck::Expired;
            }
        }
        if let Some(scope) = meta.scope {
            let in_scope = match request_name {
                Some(n) => n.has_prefix(&scope),
                None => false,
            };
            if !in_scope {
                return TokenCheck::OutOfScope(Box::new(scope));
            }
        }
        self.remove_token(token);
        TokenCheck::Accepted
    }

    /// Single-use consume with no scope check, at time `now_ns`: a present,
    /// unexpired token is redeemed (`true`); an expired one is reaped.
    pub fn consume_at(&mut self, token: &str, now_ns: u64) -> (r: bool)
        ensures
            r == (unscoped_check(token_meta(old(self)@, token@), now_ns) is Accepted),
            final(self)@ == if check_consumes(unscoped_check(token_meta(old(self)@, token@), now_ns)) {
                without_token(old(self)@, token@)
            } else {
                old(self)@
            },
    {
        let meta = match self.lookup(token) {
            Some(m) => m,
            None => return false,
        };
        if let Some(exp) = meta.expires_at_ns {
            if now_ns > exp {
                self.remove_token(token);
                return false;
            }
        }
        self.remove_token(token);
        true
    }

    /// Single-use consume with no scope check, at the current time. Expired
    /// tokens are reaped and rejected.
    pub fn consume(&mut self, token: &str) -> (r: bool)
        ensures
            exists|now: u64| #![trigger unscoped_check(token_meta(old(self)@, token@), now)] {
                let c = unscoped_check(token_meta(old(self)@, token@), now);
                &&& r == (c is Accepted)
                &&& final(self)@ == if check_consumes(c) { without_token(old(self)@, token@) } else { old(self)@ }
            },
    {
        let now = crate::clock::now_ns();
        self.consume_at(token, now)
    }

    /// Single-use consume at the current time, enforcing TTL and scope.
    pub fn consume_for(&mut self, token: &str, request_name: &Name) -> (r: TokenCheck)
        ensures
            exists|now: u64| #![trigger check_view(token_meta(old(self)@, token@), Some(request_name@), now)] {
                &&& r@ == check_view(token_meta(old(self)@, token@), Some(request_name@), now)
                &&& final(self)@ == if check_consumes(r@) { without_token(old(self)@, token@) } else { old(self)@ }
            },
    {
        let now = crate::clock::now_ns();
        self.check_and_consume_at(token, Some(request_name), now)
    }

    pub fn len(&self) -> (r: usize)
        ensures
            r == self@.len(),
    {
        let n = token_count(&self.tokens);
        proof {
            assert(self@.dom() =~= token_entries(self.tokens).dom());
        }
        n
    }

    pub fn is_empty(&self) -> (r: bool)
        ensures
            r == (self@.len() == 0),
    {
        self.len() == 0
    }
}

/// After a token is redeemed (or reaped), checking it again finds nothing:
/// tokens are single-use.
pub proof fn lemma_token_single_use(v: StoreView, token: Seq<char>, request: Option<Seq<ComponentView>>, now: u64, later: u64)
    ensures
        check_consumes(check_view(token_meta(v, token), request, now)) ==> check_view(
            token_meta(without_token(v, token), token),
            request,
            later,
        ) is NotFound,
        check_consumes(unscoped_check(token_meta(v, token), now)) ==> unscoped_check(
            token_meta(without_token(v, token), token),
            later,
        ) is NotFound,
{
}

// ---------------------------------------------------------------------------
// Hex text
// ---------------------------------------------------------------------------

/// Lower-case hex digit of a nibble.
pub open spec fn hex_lower(n: u8) -> u8 {
    if n < 10 {
        (0x30 + n) as u8
    } else {
        (0x61 + n - 10) as u8
    }
}

/// The lower-case hex text of `b`, as ASCII bytes.
pub open spec fn hex_bytes(b: Seq<u8>) -> Seq<u8>
    decreases b.len(),
{
    if b.len() == 0 {
        Seq::empty()
    } else {
        seq![hex_lower(b[0] / 16), hex_lower(b[0] % 16)] + hex_bytes(b.drop_first())
    }
}

/// `u8::from_str_radix(pair, 16)` for a two-byte pair: an optional `+`
/// and hex digits of either case.
pub open spec fn hex_pair(a: u8, b: u8) -> Option<u8> {
    if a == 0x2B {
        crate::name_uri::hex_value(b)
    } else {
        match (crate::name_uri::hex_value(a), crate::name_uri::hex_value(b)) {
            (Some(h), Some(l)) => Some((h * 16 + l) as u8),
            _ => None,
        }
    }
}

/// What decoding hex text (its bytes) gives: `None` for an odd length or a
/// pair that is not a hex byte.
pub open spec fn hex_decoding(s: Seq<u8>) -> Option<Seq<u8>>
    decreases s.len(),
{
    if s.len() % 2 != 0 {
        None
    } else if s.len() == 0 {
        Some(Seq::empty())
    } else {
        match hex_pair(s[0], s[1]) {
            None => None,
            Some(v) => match hex_decoding(s.skip(2)) {
                None => None,
                Some(rest) => Some(seq![v] + rest),
            },
        }
    }
}

/// Decoding slices the text at every even byte offset: those must fall on
/// character boundaries.
pub open spec fn hex_sliceable(s: Seq<char>) -> bool {
    forall|i: int| 0 <= i <= utf8_bytes(s).len() && i % 2 == 0 ==> #[trigger] vstd::utf8::is_char_boundary(utf8_bytes(s), i)
}

/// ASCII text, and so hex text, slices at every byte offset.
pub proof fn lemma_ascii_hex_sliceable(s: Seq<char>)
    requires
        vstd::utf8::is_ascii_chars(s),
    ensures
        hex_sliceable(s),
{
    vstd::utf8::is_ascii_chars_encode_utf8(s);
    vstd::utf8::is_ascii_chars_nat_bound(s);
    vstd::utf8::encode_utf8_valid_utf8(s);
    let b = utf8_bytes(s);
    vstd::utf8::is_char_boundary_start_end_of_seq(b);
    assert forall|i: int| 0 <= i <= b.len() && i % 2 == 0 implies #[trigger] vstd::utf8::is_char_boundary(b, i) by {
        if i < b.len() {
            assert(s[i] as u8 == b[i]);
            assert((s[i] as nat) < 128);
            vstd::utf8::is_char_boundary_iff_not_is_continuation_byte(b, i);
        }
    }
}

proof fn lemma_hex_bytes_step(b: Seq<u8>, x: u8)
    ensures
        hex_bytes(b.push(x)) == hex_bytes(b) + seq![hex_lower(x / 16), hex_lower(x % 16)],
    decreases b.len(),
{
    if b.len() > 0 {
        lemma_hex_bytes_step(b.drop_first(), x);
        assert(b.push(x).drop_first() =~= b.drop_first().push(x));
        assert(hex_bytes(b.push(x)) =~= hex_bytes(b) + seq![hex_lower(x / 16), hex_lower(x % 16)]);
    } else {
        assert(b.push(x).drop_first() =~= Seq::<u8>::empty());
        assert(hex_bytes(Seq::<u8>::empty()) =~= Seq::<u8>::empty());
        assert(b.push(x)[0] == x);
        assert(hex_bytes(b.push(x)) =~= seq![hex_lower(x / 16), hex_lower(x % 16)] + Seq::<u8>::empty());
        assert(b =~= Seq::<u8>::empty());
        assert(hex_bytes(b.push(x)) =~= hex_bytes(b) + seq![hex_lower(x / 16), hex_lower(x % 16)]);
    }
}

proof fn lemma_hex_ascii(b: Seq<u8>)
    ensures
        forall|i: int| 0 <= i < hex_bytes(b).len() ==> hex_bytes(b)[i] < 128,
        hex_bytes(b).len() == 2 * b.len(),
    decreases b.len(),
{
    if b.len() > 0 {
        lemma_hex_ascii(b.drop_first());
        let h = hex_bytes(b);
        let t = hex_bytes(b.drop_first());
        assert forall|i: int| 0 <= i < h.len() implies h[i] < 128 by {
            if i >= 2 {
                assert(h[i] == t[i - 2]);
            }
        }
    }
}

/// The lower-case hex text of `bytes`.
pub fn hex_encode(bytes: &[u8]) -> (r: String)
    ensures
        r@ == crate::text::ascii_chars(hex_bytes(bytes@)),
        hex_sliceable(r@),
{
    let mut out: Vec<u8> = Vec::new();
    let mut i: usize = 0;
    while i < bytes.len()
        invariant
            i <= bytes@.len(),
            out@ == hex_bytes(bytes@.take(i as int)),
        decreases bytes@.len() - i,
    {
        let b = bytes[i];
        let hi = b / 16;
        let lo = b % 16;
        out.push(if hi < 10 { 0x30 + hi } else { 0x61 + hi - 10 });
        out.push(if lo < 10 { 0x30 + lo } else { 0x61 + lo - 10 });
        proof {
            lemma_hex_bytes_step(bytes@.take(i as int), b);
            assert(bytes@.take(i + 1) =~= bytes@.take(i as int).push(b));
            assert(out@ =~= hex_bytes(bytes@.take(i + 1)));
        }
        i = i + 1;
    }
    proof {
        assert(bytes@.take(i as int) =~= bytes@);
        lemma_hex_ascii(bytes@);
    }
    let r = crate::text::string_from_ascii(out.as_slice());
    proof {
        let c = crate::text::ascii_chars(hex_bytes(bytes@));
        assert forall|k: int| 0 <= k < c.len() implies '\0' <= #[trigger] c[k] <= '\u{7f}' by {
            assert(c[k] == hex_bytes(bytes@)[k] as char);
        }
        lemma_ascii_hex_sliceable(r@);
    }
    r
}

fn hex_nibble_exec(b: u8) -> (r: Option<u8>)
    ensures
        r == crate::name_uri::hex_value(b),
{
    if 0x30 <= b && b <= 0x39 {
        Some(b - 0x30)
    } else if 0x41 <= b && b <= 0x46 {
        Some(b - 0x41 + 10)
    } else if 0x61 <= b && b <= 0x66 {
        Some(b - 0x61 + 10)
    } else {
        None
    }
}

/// Decode hex text (`u8::from_str_radix` on each pair of bytes); `None` for
/// an odd length or a pair that is not a hex byte.
pub fn hex_decode(s: &str) -> (r: Option<Vec<u8>>)
    requires
        hex_sliceable(s@),
    ensures
        match hex_decoding(utf8_bytes(s@)) {
            None => r is None,
            Some(v) => r matches Some(w) && w@ == v,
        },
{
    let b = s.as_bytes();
    if b.len() % 2 != 0 {
        return None;
    }
    let mut out: Vec<u8> = Vec::new();
    let mut i: usize = 0;
    proof {
        assert(b@.skip(0) =~= b@);
        match hex_decoding(b@) {
            None => {},
            Some(v) => {
                assert(out@ + v =~= v);
            },
        }
    }
    while i < b.len()
        invariant
            i <= b@.len(),
            i % 2 == 0,
            b@.len() % 2 == 0,
            b@ == utf8_bytes(s@),
            hex_decoding(b@) == match hex_decoding(b@.skip(i as int)) {
                None => None,
                Some(v) => Some(out@ + v),
            },
        decreases b@.len() - i,
    {
        let ghost t = b@.skip(i as int);
        proof {
            assert(t[0] == b@[i as int]);
            assert(t[1] == b@[i + 1]);
            assert(t.skip(2) =~= b@.skip(i + 2));
            assert(t.len() % 2 == 0);
            assert(t.len() > 0);
        }
        let v = if b[i] == 0x2B {
            match hex_nibble_exec(b[i + 1]) {
                Some(l) => l,
                None => return None,
            }
        } else {
            match (hex_nibble_exec(b[i]), hex_nibble_exec(b[i + 1])) {
                (Some(h), Some(l)) => h * 16 + l,
                _ => return None,
            }
        };
        let ghost before = out@;
        out.push(v);
        proof {
            match hex_decoding(b@.skip(i + 2)) {
                None => {},
                Some(rest) => {
                    assert(before + (seq![v] + rest) =~= out@ + rest);
                },
            }
        }
        i = i + 2;
    }
    proof {
        assert(b@.skip(i as int) =~= Seq::<u8>::empty());
        assert(out@ + Seq::<u8>::empty() =~= out@);
    }
    Some(out)
}

/// Decoding the hex text of any bytes gives them back.
pub proof fn lemma_hex_roundtrip(b: Seq<u8>)
    ensures
        hex_decoding(hex_bytes(b)) == Some(b),
    decreases b.len(),
{
    lemma_hex_ascii(b);
    if b.len() > 0 {
        lemma_hex_roundtrip(b.drop_first());
        lemma_hex_ascii(b.drop_first());
        let h = hex_bytes(b);
        let x = b[0];
        assert(hex_lower(x / 16) != 0x2B);
        assert(crate::name_uri::hex_value(hex_lower(x / 16)) == Some(x / 16));
        assert(crate::name_uri::hex_value(hex_lower(x % 16)) == Some(x % 16));
        assert(h.skip(2) =~= hex_bytes(b.drop_first()));
        assert(seq![x] + b.drop_first() =~= b);
    } else {
        assert(hex_bytes(b) =~= Seq::<u8>::empty());
        assert(b =~= Seq::<u8>::empty());
    }
}

/// Hex text is ASCII, so it slices anywhere, and it reads back as the bytes.
pub proof fn lemma_hex_text(b: Seq<u8>)
    ensures
        utf8_bytes(crate::text::ascii_chars(hex_bytes(b))) == hex_bytes(b),
{
    lemma_hex_ascii(b);
    crate::text::lemma_ascii_roundtrip(hex_bytes(b));
}

// ---------------------------------------------------------------------------
// HOTP (RFC 4226)
// ---------------------------------------------------------------------------

/// RFC 4226 §5.3 dynamic truncation of a 20-byte HMAC-SHA1 tag.
pub open spec fn truncated_code(d: Seq<u8>) -> int {
    let off = (d[19] & 0x0fu8) as int;
    (d[off] & 0x7fu8) as int * 16777216 + d[off + 1] as int * 65536 + d[off + 2] as int * 256 + d[off + 3] as int
}

/// The six-digit HOTP value of `seed` at `counter`.
pub open spec fn hotp_value(seed: Seq<u8>, counter: u64) -> u32 {
    (truncated_code(crate::crypto::hmac_sha1(seed, crate::tlv::be_bytes(counter as nat, 8))) % 1000000) as u32
}

/// RFC 4226 HOTP value.
pub fn hotp(seed: &[u8], counter: u64) -> (r: u32)
    ensures
        r == hotp_value(seed@, counter),
{
    let mut msg: Vec<u8> = Vec::new();
    crate::tlv::push_be(&mut msg, counter, 8);
    let tag = crate::crypto::hmac_sha1_tag(seed, msg.as_slice());
    let t19 = tag[19];
    let offset = (t19 & 0x0f) as usize;
    proof {
        assert(t19 & 0x0f <= 15) by (bit_vector);
    }
    let t0 = tag[offset];
    proof {
        assert(t0 & 0x7f <= 127) by (bit_vector);
    }
    let code: u32 = ((t0 & 0x7f) as u32) * 16777216 + (tag[offset + 1] as u32) * 65536 + (tag[offset + 2] as u32) * 256
        + tag[offset + 3] as u32;
    code % 1000000
}

/// Scan `counter..=counter + window` for `otp`; `Some(matched + 1)` (the
/// counter to persist) for the first match.
pub fn verify_hotp(seed: &[u8], counter: u64, window: u64, otp: u32) -> (r: Option<u64>)
    requires
        counter + window <= u64::MAX,
        counter + window == u64::MAX && hotp_value(seed@, u64::MAX) == otp ==> exists|j: u64|
            counter <= j < u64::MAX && #[trigger] hotp_value(seed@, j) == otp,
    ensures
        match r {
            Some(n) => counter < n <= counter + window + 1 && hotp_value(seed@, (n - 1) as u64) == otp && forall|j: u64|
                counter <= j < n - 1 ==> hotp_value(seed@, j) != otp,
            None => forall|j: u64| counter <= j <= counter + window ==> hotp_value(seed@, j) != otp,
        },
{
    let mut i: u64 = 0;
    loop
        invariant
            counter + window <= u64::MAX,
            counter + window == u64::MAX && hotp_value(seed@, u64::MAX) == otp ==> exists|j: u64|
                counter <= j < u64::MAX && #[trigger] hotp_value(seed@, j) == otp,
            i <= window,
            forall|j: u64| counter <= j < counter + i ==> hotp_value(seed@, j) != otp,
        decreases window - i,
    {
        if hotp(seed, counter + i) == otp {
            proof {
                if counter + i == u64::MAX {
                    let j = choose|j: u64| counter <= j < u64::MAX && #[trigger] hotp_value(seed@, j) == otp;
                    assert(hotp_value(seed@, j) != otp);
                }
            }
            return Some(counter + i + 1);
        }
        if i == window {
            return None;
        }
        i = i + 1;
    }
}

// ---------------------------------------------------------------------------
// YubiKey HOTP challenge
// ---------------------------------------------------------------------------

pub const HOTP_DEFAULT_WINDOW: u64 = 20;

/// YubiKey HOTP challenge: RFC 4226 HMAC-SHA1 OTP submitted as
/// `{ "otp": "<digits>" }`, with a look-ahead window for uncaptured presses.
#[derive(Debug, Clone, PartialEq, Eq)]
pub struct YubikeyHotpChallenge {
    pub seed: Vec<u8>,
    pub initial_counter: u64,
    pub window: u64,
    pub max_tries: u8,
}

/// `get(key).and_then(as_u64).unwrap_or(1) as u8`.
pub open spec fn tries_of(f: FieldsView) -> u8 {
    match member_u64(f, "remaining_tries"@) {
        Some(n) => (n % 256) as u8,
        None => 1,
    }
}

/// `str::parse::<u32>`.
pub open spec fn parse_u32_text(c: Seq<char>) -> Option<u32> {
    match crate::envelope::parse_u64_text(c) {
        Some(v) => if v <= u32::MAX {
            Some(v as u32)
        } else {
            None
        },
        None => None,
    }
}

pub open spec fn text_or_empty(o: Option<Seq<char>>) -> Seq<char> {
    match o {
        Some(s) => s,
        None => Seq::empty(),
    }
}

pub open spec fn u64_or(o: Option<u64>, d: u64) -> u64 {
    match o {
        Some(v) => v,
        None => d,
    }
}

/// The state fields the HOTP challenge reads, with their defaults.
pub open spec fn hotp_seed_text(f: FieldsView) -> Seq<char> {
    text_or_empty(member_str(f, "seed_hex"@))
}

pub open spec fn hotp_counter(f: FieldsView) -> u64 {
    u64_or(member_u64(f, "counter"@), 0)
}

pub open spec fn hotp_window(f: FieldsView) -> u64 {
    u64_or(member_u64(f, "window"@), HOTP_DEFAULT_WINDOW)
}

/// The seed the state holds (empty when its hex text does not decode).
pub open spec fn hotp_seed(f: FieldsView) -> Seq<u8> {
    match hex_decoding(utf8_bytes(hotp_seed_text(f))) {
        Some(s) => s,
        None => Seq::empty(),
    }
}

/// Some counter in the window accepts `otp`.
pub open spec fn hotp_accepts(f: FieldsView, otp: u32) -> bool {
    exists|j: u64| hotp_counter(f) <= j <= hotp_counter(f) + hotp_window(f) && hotp_value(hotp_seed(f), j) == otp
}

fn u64_or_exec(o: Option<u64>, d: u64) -> (r: u64)
    ensures
        r == u64_or(o, d),
{
    match o {
        Some(v) => v,
        None => d,
    }
}

impl YubikeyHotpChallenge {
    /// `initial_counter` must match the YubiKey's counter state.
    pub fn new(seed: Vec<u8>, initial_counter: u64) -> (r: YubikeyHotpChallenge)
        ensures
            r.seed == seed,
            r.initial_counter == initial_counter,
            r.window == HOTP_DEFAULT_WINDOW,
            r.max_tries == 3,
    {
        YubikeyHotpChallenge { seed, initial_counter, window: HOTP_DEFAULT_WINDOW, max_tries: 3 }
    }

    pub fn with_window(self, window: u64) -> (r: YubikeyHotpChallenge)
        ensures
            r == (YubikeyHotpChallenge { window, ..self }),
    {
        YubikeyHotpChallenge { window, ..self }
    }

    pub fn with_max_tries(self, max_tries: u8) -> (r: YubikeyHotpChallenge)
        ensures
            r == (YubikeyHotpChallenge { max_tries, ..self }),
    {
        YubikeyHotpChallenge { max_tries, ..self }
    }

    pub fn challenge_type(&self) -> (r: &'static str)
        ensures
            r@ == "yubikey-hotp"@,
    {
        "yubikey-hotp"
    }

    /// The first state: the seed (as hex), counter, window and tries.
    pub fn begin(&self, req: &CertRequest) -> (r: ChallengeState)
        ensures
            r.challenge_type@ == "yubikey-hotp"@,
            member_str(r.data@, "seed_hex"@) == Some(crate::text::ascii_chars(hex_bytes(self.seed@))),
            member_u64(r.data@, "counter"@) == Some(self.initial_counter),
            member_u64(r.data@, "window"@) == Some(self.window),
            member_u64(r.data@, "remaining_tries"@) == Some(self.max_tries as u64),
    {
        let data = hotp_fields(hex_encode(self.seed.as_slice()), self.initial_counter, self.window, self.max_tries as u64);
        ChallengeState { challenge_type: string_from_static("yubikey-hotp"), data }
    }

    /// One round: the submitted `otp` is checked against the window of
    /// counters; a miss costs a try.
    pub fn verify(&self, state: &ChallengeState, params: &JsonFields) -> (r: Result<ChallengeOutcome, CertError>)
        requires
            hotp_counter(state.data@) + hotp_window(state.data@) < u64::MAX,
            hex_sliceable(hotp_seed_text(state.data@)),
        ensures
            match member_str(params@, "otp"@) {
                None => r matches Ok(ChallengeOutcome::Denied(m)) && m@ == "missing 'otp' parameter"@,
                Some(o) => match parse_u32_text(crate::text::trimmed(o)) {
                    None => r matches Ok(ChallengeOutcome::Denied(m)) && m@ == "invalid OTP format \u{2014} expected a numeric code"@,
                    Some(otp) => if hotp_seed(state.data@).len() == 0 {
                        r matches Err(CertError::InvalidRequest(m)) && m@ == "corrupt HOTP challenge state"@
                    } else if hotp_accepts(state.data@, otp) {
                        r matches Ok(ChallengeOutcome::Approved { attestation: None })
                    } else if tries_of(state.data@) <= 1 {
                        r matches Ok(ChallengeOutcome::Denied(m)) && m@ == "YubiKey OTP verification failed: no attempts remaining"@
                    } else {
                        r matches Ok(ChallengeOutcome::Pending { status_message, remaining_tries, remaining_time_secs, next_state })
                            && remaining_tries == tries_of(state.data@) - 1
                            && remaining_time_secs == 300
                            && status_message@ == "Invalid OTP \u{2014} press the YubiKey button again ("@ + crate::text::decimal_text(remaining_tries as nat) + " attempt(s) left)"@
                            && next_state.challenge_type@ == "yubikey-hotp"@
                            && member_str(next_state.data@, "seed_hex"@) == Some(hotp_seed_text(state.data@))
                            && member_u64(next_state.data@, "counter"@) == Some(hotp_counter(state.data@))
                            && member_u64(next_state.data@, "window"@) == Some(hotp_window(state.data@))
                            && member_u64(next_state.data@, "remaining_tries"@) == Some(remaining_tries as u64)
                    },
                },
            },
    {
        let otp_str = params.get_str("otp");
        let seed_hex = match state.data.get_str("seed_hex") {
            Some(s) => s,
            None => String::new(),
        };
        let counter = u64_or_exec(state.data.get_u64("counter"), 0);
        let window = u64_or_exec(state.data.get_u64("window"), HOTP_DEFAULT_WINDOW);
        let remaining_tries: u8 = match state.data.get_u64("remaining_tries") {
            Some(n) => (n % 256) as u8,
            None => 1,
        };
        let otp_str = match otp_str {
            Some(s) => s,
            None => return Ok(ChallengeOutcome::Denied(string_from_static("missing 'otp' parameter"))),
        };
        let trimmed = crate::text::trim_text(otp_str.as_str());
        let n = trimmed.unicode_len();
        let otp: u32 = match crate::envelope::parse_u64_chars(trimmed, 0, n) {
            Some(v) => {
                proof {
                    assert(trimmed@.subrange(0, n as int) =~= trimmed@);
                }
                if v <= 0xFFFF_FFFF {
                    v as u32
                } else {
                    return Ok(ChallengeOutcome::Denied(string_from_static("invalid OTP format \u{2014} expected a numeric code")));
                }
            },
            None => {
                proof {
                    assert(trimmed@.subrange(0, n as int) =~= trimmed@);
                }
                return Ok(ChallengeOutcome::Denied(string_from_static("invalid OTP format \u{2014} expected a numeric code")));
            },
        };
        let seed = match hex_decode(seed_hex.as_str()) {
            Some(s) => s,
            None => Vec::new(),
        };
        if seed.len() == 0 {
            return Err(CertError::InvalidRequest(string_from_static("corrupt HOTP challenge state")));
        }
        match verify_hotp(seed.as_slice(), counter, window, otp) {
            Some(next_counter) => {
                return Ok(ChallengeOutcome::Approved { attestation: None });
            },
            None => {},
        }
        if remaining_tries <= 1 {
            return Ok(ChallengeOutcome::Denied(string_from_static("YubiKey OTP verification failed: no attempts remaining")));
        }
        let new_tries = remaining_tries - 1;
        let count = crate::text::u64_text(new_tries as u64);
        let status_message = crate::text::concat3(
            "Invalid OTP \u{2014} press the YubiKey button again (",
            count.as_str(),
            " attempt(s) left)",
        );
        let data = hotp_fields(seed_hex, counter, window, new_tries as u64);
        Ok(
            ChallengeOutcome::Pending {
                status_message,
                remaining_tries: new_tries,
                remaining_time_secs: 300,
                next_state: ChallengeState { challenge_type: string_from_static("yubikey-hotp"), data },
            },
        )
    }
}

/// The state of the HOTP challenge.
fn hotp_fields(seed_hex: String, counter: u64, window: u64, tries: u64) -> (r: JsonFields)
    ensures
        member_str(r@, "seed_hex"@) == Some(seed_hex@),
        member_u64(r@, "counter"@) == Some(counter),
        member_u64(r@, "window"@) == Some(window),
        member_u64(r@, "remaining_tries"@) == Some(tries),
{
    let k1 = string_from_static("seed_hex");
    let k2 = string_from_static("counter");
    let k3 = string_from_static("window");
    let k4 = string_from_static("remaining_tries");
    let ghost s = seed_hex@;
    let ghost (v1, v2, v3, v4) = (k1@, k2@, k3@, k4@);
    let entries = vec![(k1, JsonScalar::Str(seed_hex)), (k2, JsonScalar::Uint(counter)), (k3, JsonScalar::Uint(window)), (k4, JsonScalar::Uint(tries))];
    let r = JsonFields { entries };
    proof {
        reveal_strlit("seed_hex");
        reveal_strlit("counter");
        reveal_strlit("window");
        reveal_strlit("remaining_tries");
        let f = r@;
        assert(f.len() == 4);
        assert(f[0] == (v1, ScalarView::Str(s)));
        assert(f[1] == (v2, ScalarView::Uint(counter)));
        assert(f[2] == (v3, ScalarView::Uint(window)));
        assert(f[3] == (v4, ScalarView::Uint(tries)));
        assert(f.drop_first()[0] == f[1]);
        assert(f.drop_first().drop_first()[0] == f[2]);
        assert(f.drop_first().drop_first().drop_first()[0] == f[3]);
        assert(v1.len() == 8 && v2.len() == 7 && v3.len() == 6 && v4.len() == 15);
        assert(v2[0] != v3[0]);
        assert(v1 != v2);
        assert(v1 != v3);
        assert(v1 != v4);
        assert(v2 != v3);
        assert(v2 != v4);
        assert(v3 != v4);
        assert(v1 == "seed_hex"@);
        assert(v2 == "counter"@);
        assert(v3 == "window"@);
        assert(v4 == "remaining_tries"@);
        reveal_with_fuel(member, 5);
    }
    r
}

// ---------------------------------------------------------------------------
// Token challenge
// ---------------------------------------------------------------------------

/// One-time token challenge: tokens are provisioned out of band and consumed
/// on successful use.
pub struct TokenChallenge {
    pub store: TokenStore,
}

/// The name the token challenge recorded for the request, if it parses.
pub open spec fn recorded_request(f: FieldsView) -> Option<Seq<ComponentView>> {
    match member_str(f, "request_name"@) {
        Some(s) => crate::name_uri::uri_parse(utf8_bytes(s)),
        None => None,
    }
}

/// The check a token challenge makes: with a recorded request name it
/// enforces TTL and scope; without one, single use and TTL only (the
/// namespace policy still gates the prefix).
pub open spec fn token_round_check(meta: Option<TokenMetaView>, request: Option<Seq<ComponentView>>, now_ns: u64) -> CheckView {
    match request {
        Some(n) => check_view(meta, Some(n), now_ns),
        None => if unscoped_check(meta, now_ns) is Accepted {
            CheckView::Accepted
        } else {
            CheckView::NotFound
        },
    }
}

/// One token round at time `now_ns`: its outcome and what it does to the
/// store.
pub open spec fn token_round(before: StoreView, after: StoreView, state: FieldsView, params: FieldsView, now_ns: u64, r: ChallengeOutcome) -> bool {
    match member_str(params, "token"@) {
        None => (r matches ChallengeOutcome::Denied(m) && m@ == "missing 'token' parameter"@) && after == before,
        Some(t) => {
            let c = token_round_check(token_meta(before, t), recorded_request(state), now_ns);
            let consumed = if recorded_request(state) is Some {
                check_consumes(c)
            } else {
                check_consumes(unscoped_check(token_meta(before, t), now_ns))
            };
            &&& after == if consumed { without_token(before, t) } else { before }
            &&& match c {
                CheckView::Accepted => r == (ChallengeOutcome::Approved { attestation: None }),
                CheckView::Expired => r matches ChallengeOutcome::Denied(m) && m@ == "token expired"@,
                CheckView::OutOfScope(scope) => r matches ChallengeOutcome::Denied(m) && m@ == "token is scoped to "@ + spec_uri_text(scope) + "; requested name is outside it"@,
                CheckView::NotFound => r matches ChallengeOutcome::Denied(m) && m@ == "invalid or already-redeemed token"@,
            }
        },
    }
}

impl TokenChallenge {
    pub fn new(store: TokenStore) -> (r: TokenChallenge)
        ensures
            r.store@ == store@,
    {
        TokenChallenge { store }
    }

    pub fn challenge_type(&self) -> (r: &'static str)
        ensures
            r@ == "token"@,
    {
        "token"
    }

    /// Record the name the requester asked to certify.
    pub fn begin(&self, req: &CertRequest) -> (r: ChallengeState)
        ensures
            r.challenge_type@ == "token"@,
            member_str(r.data@, "request_name"@) == Some(req.name@),
    {
        let k = string_from_static("request_name");
        let ghost kv = k@;
        let entries = vec![(k, JsonScalar::Str(req.name.clone()))];
        let data = JsonFields { entries };
        proof {
            assert(data@[0] == (kv, ScalarView::Str(req.name@)));
        }
        ChallengeState { challenge_type: string_from_static("token"), data }
    }

    /// One round at time `now_ns`.
    pub fn verify_at(&mut self, state: &ChallengeState, params: &JsonFields, now_ns: u64) -> (r: ChallengeOutcome)
        ensures
            token_round(old(self).store@, final(self).store@, state.data@, params@, now_ns, r),
    {
        let token = match params.get_str("token") {
            Some(t) => t,
            None => return ChallengeOutcome::Denied(string_from_static("missing 'token' parameter")),
        };
        let request_name = match state.data.get_str("request_name") {
            Some(s) => Name::from_uri(s.as_str()),
            None => None,
        };
        let check = match &request_name {
            Some(n) => self.store.check_and_consume_at(token.as_str(), Some(n), now_ns),
            None => if self.store.consume_at(token.as_str(), now_ns) {
                TokenCheck::Accepted
            } else {
                TokenCheck::NotFound
            },
        };
        match check {
            TokenCheck::Accepted => ChallengeOutcome::Approved { attestation: None },
            TokenCheck::Expired => ChallengeOutcome::Denied(string_from_static("token expired")),
            TokenCheck::OutOfScope(scope) => {
                let u = scope.to_uri();
                ChallengeOutcome::Denied(crate::text::concat3("token is scoped to ", u.as_str(), "; requested name is outside it"))
            },
            TokenCheck::NotFound => ChallengeOutcome::Denied(string_from_static("invalid or already-redeemed token")),
        }
    }

    /// One round at the current time.
    pub fn verify(&mut self, state: &ChallengeState, params: &JsonFields) -> (r: ChallengeOutcome)
        ensures
            exists|now: u64| #[trigger] token_round(old(self).store@, final(self).store@, state.data@, params@, now, r),
    {
        let now = crate::clock::now_ns();
        self.verify_at(state, params, now)
    }
}

// ---------------------------------------------------------------------------
// Possession challenge
// ---------------------------------------------------------------------------

/// A certificate the CA already trusts: its name and public key.
#[derive(Debug, Clone, PartialEq, Eq)]
pub struct TrustedCert {
    pub name: Name,
    pub public_key: Vec<u8>,
}

/// Possession challenge: the client signs the request nonce with the key of
/// a certificate the CA already trusts, and submits
/// `{ "cert_name": "<uri>", "signature": "<base64url>" }`.
pub struct PossessionChallenge {
    pub trusted_certs: Vec<TrustedCert>,
}

/// Index of the first trusted certificate whose URI is `name`.
pub open spec fn trusted_index(certs: Seq<TrustedCert>, name: Seq<char>) -> Option<int>
    decreases certs.len(),
{
    if certs.len() == 0 {
        None
    } else if spec_uri_text(certs[0].name@) == name {
        Some(0)
    } else {
        match trusted_index(certs.drop_first(), name) {
            Some(i) => Some(i + 1),
            None => None,
        }
    }
}

proof fn lemma_trusted_index(certs: Seq<TrustedCert>, name: Seq<char>)
    ensures
        trusted_index(certs, name) matches Some(i) ==> 0 <= i < certs.len() && spec_uri_text(certs[i].name@) == name,
    decreases certs.len(),
{
    if certs.len() > 0 {
        lemma_trusted_index(certs.drop_first(), name);
        if let Some(i) = trusted_index(certs.drop_first(), name) {
            assert(certs.drop_first()[i] == certs[i + 1]);
        }
    }
}

impl PossessionChallenge {
    pub fn new(trusted_certs: Vec<TrustedCert>) -> (r: PossessionChallenge)
        ensures
            r.trusted_certs == trusted_certs,
    {
        PossessionChallenge { trusted_certs }
    }

    pub fn challenge_type(&self) -> (r: &'static str)
        ensures
            r@ == "possession"@,
    {
        "possession"
    }

    /// The nonce to sign is the requested name.
    pub fn begin(&self, req: &CertRequest) -> (r: ChallengeState)
        ensures
            r.challenge_type@ == "possession"@,
            member_str(r.data@, "nonce"@) == Some(req.name@),
    {
        let k = string_from_static("nonce");
        let ghost kv = k@;
        let entries = vec![(k, JsonScalar::Str(req.name.clone()))];
        let data = JsonFields { entries };
        proof {
            assert(data@[0] == (kv, ScalarView::Str(req.name@)));
        }
        ChallengeState { challenge_type: string_from_static("possession"), data }
    }

    fn find_trusted(&self, name: &str) -> (r: Option<usize>)
        ensures
            match trusted_index(self.trusted_certs@, name@) {
                None => r is None,
                Some(i) => r matches Some(k) && k as int == i,
            },
            r matches Some(i) ==> i < self.trusted_certs@.len(),
    {
        let mut i: usize = 0;
        proof {
            assert(self.trusted_certs@.skip(0) =~= self.trusted_certs@);
        }
        while i < self.trusted_certs.len()
            invariant
                i <= self.trusted_certs@.len(),
                trusted_index(self.trusted_certs@, name@) == match trusted_index(self.trusted_certs@.skip(i as int), name@) {
                    Some(j) => Some(j + i),
                    None => None,
                },
            decreases self.trusted_certs@.len() - i,
        {
            let ghost t = self.trusted_certs@.skip(i as int);
            proof {
                assert(t[0] == self.trusted_certs@[i as int]);
                assert(t.drop_first() =~= self.trusted_certs@.skip(i + 1));
            }
            let u = self.trusted_certs[i].name.to_uri();
            if str_eq(u.as_str(), name) {
                return Some(i);
            }
            i = i + 1;
        }
        proof {
            assert(self.trusted_certs@.skip(i as int).len() == 0);
        }
        None
    }

    /// One round: the signature over the nonce must verify under the named
    /// trusted certificate's key.
    pub fn verify(&self, state: &ChallengeState, params: &JsonFields) -> (r: Result<ChallengeOutcome, CertError>)
        ensures
            match (member_str(params@, "cert_name"@), member_str(params@, "signature"@)) {
                (None, _) => r matches Err(CertError::InvalidRequest(m)) && m@ == "missing 'cert_name'"@,
                (Some(_), None) => r matches Err(CertError::InvalidRequest(m)) && m@ == "missing 'signature'"@,
                (Some(cn), Some(sg)) => match crate::b64::b64url_decoding(utf8_bytes(sg)) {
                    None => r matches Err(CertError::InvalidRequest(m)) && m@ == "invalid base64 signature"@,
                    Some(sig) => match trusted_index(self.trusted_certs@, cn) {
                        None => r matches Ok(ChallengeOutcome::Denied(m)) && m@ == "certificate not trusted: "@ + cn,
                        Some(i) => if crate::crypto::ed25519_accepts(
                            self.trusted_certs@[i].public_key@,
                            utf8_bytes(text_or_empty(member_str(state.data@, "nonce"@))),
                            sig,
                        ) {
                            r matches Ok(ChallengeOutcome::Approved { attestation: None })
                        } else {
                            r matches Ok(ChallengeOutcome::Denied(m)) && m@ == "signature verification failed"@
                        },
                    },
                },
            },
    {
        let cert_name = match params.get_str("cert_name") {
            Some(c) => c,
            None => return Err(CertError::InvalidRequest(string_from_static("missing 'cert_name'"))),
        };
        let signature = match params.get_str("signature") {
            Some(s) => s,
            None => return Err(CertError::InvalidRequest(string_from_static("missing 'signature'"))),
        };
        let nonce = match state.data.get_str("nonce") {
            Some(n) => n,
            None => String::new(),
        };
        let sig = match crate::b64::b64url_decode(signature.as_str().as_bytes()) {
            Some(s) => s,
            None => return Err(CertError::InvalidRequest(string_from_static("invalid base64 signature"))),
        };
        let i = match self.find_trusted(cert_name.as_str()) {
            Some(i) => i,
            None => {
                let mut m = string_from_static("certificate not trusted: ");
                push_text(&mut m, cert_name.as_str());
                return Ok(ChallengeOutcome::Denied(m));
            },
        };
        proof {
            lemma_trusted_index(self.trusted_certs@, cert_name@);
        }
        let pk = &self.trusted_certs[i].public_key;
        let nb = nonce.as_str().as_bytes();
        proof {
            assert(nonce@ == text_or_empty(member_str(state.data@, "nonce"@)));
            assert(nb@ == utf8_bytes(nonce@));
            assert(trusted_index(self.trusted_certs@, cert_name@) == Some(i as int));
            assert(member_str(params@, "cert_name"@) == Some(cert_name@));
        }
        if crate::crypto::ed25519_verify(pk.as_slice(), nb, sig.as_slice()) {
            Ok(ChallengeOutcome::Approved { attestation: None })
        } else {
            Ok(ChallengeOutcome::Denied(string_from_static("signature verification failed")))
        }
    }
}

// ---------------------------------------------------------------------------
// E-mail challenge
// ---------------------------------------------------------------------------

/// The lower-case hex SHA-256 of a text.
pub open spec fn sha_hex(c: Seq<char>) -> Seq<char> {
    crate::text::ascii_chars(hex_bytes(crate::digest::sha256_of(utf8_bytes(c))))
}

/// `hex(sha256(text))`.
pub fn sha256_hex(text: &str) -> (r: String)
    ensures
        r@ == sha_hex(text@),
{
    let h = crate::digest::sha256(text.as_bytes());
    hex_encode(h.as_slice())
}

/// The last `n` decimal digits of `v`, as ASCII bytes.
fn fixed_digits(v: u64, n: usize) -> (r: Vec<u8>)
    ensures
        r@ == crate::iso8601::digits(v as nat, n as nat),
        forall|i: int| 0 <= i < r@.len() ==> r@[i] < 128,
    decreases n,
{
    if n == 0 {
        Vec::new()
    } else {
        let mut r = fixed_digits(v / 10, n - 1);
        let ghost p = r@;
        r.push(0x30 + (v % 10) as u8);
        proof {
            assert(r@ =~= p.push((0x30 + v % 10) as u8));
            assert forall|i: int| 0 <= i < r@.len() implies r@[i] < 128 by {
                if i < p.len() {
                    assert(r@[i] == p[i]);
                }
            }
        }
        r
    }
}

/// The six-digit text of a code below one million, with leading zeros.
pub open spec fn otp_text(n: nat) -> Seq<char> {
    crate::text::ascii_chars(crate::iso8601::digits(n, 6))
}

/// A fresh 6-digit code: 4 random bytes, big-endian, modulo 10^6, written
/// with leading zeros.
pub fn generate_otp() -> (r: String)
    ensures
        exists|n: nat| n < 1000000 && r@ == #[trigger] otp_text(n),
{
    let b = crate::crypto::random_bytes(4);
    let v = crate::tlv::read_be(b.as_slice(), 0, 4);
    let n = v % 1000000;
    let d = fixed_digits(n, 6);
    let r = crate::text::string_from_ascii(d.as_slice());
    proof {
        assert(r@ == otp_text(n as nat));
    }
    r
}

/// The state of the e-mail challenge once a code is out.
pub open spec fn email_code_state(st: ChallengeState, email: Seq<char>, hash: Seq<char>, expires_at: u64, tries: u64) -> bool {
    &&& st.challenge_type@ == "email"@
    &&& member_str(st.data@, "phase"@) == Some("awaiting_code"@)
    &&& member_str(st.data@, "email"@) == Some(email)
    &&& member_str(st.data@, "otp_hash"@) == Some(hash)
    &&& member_u64(st.data@, "expires_at"@) == Some(expires_at)
    &&& member_u64(st.data@, "remaining_tries"@) == Some(tries)
}

/// `now + ttl`, held at `u64::MAX`.
pub open spec fn expiry(now: u64, ttl: u32) -> u64 {
    if now + ttl > u64::MAX {
        u64::MAX
    } else {
        (now + ttl) as u64
    }
}

/// What a round mails, if it mails anything: in the awaiting-e-mail phase,
/// the code `otp` to the address in the `email` parameter.
pub open spec fn email_to_mail(state: FieldsView, params: FieldsView, otp: Seq<char>) -> Option<(Seq<char>, Seq<char>)> {
    match member_str(params, "email"@) {
        Some(email) => if text_or_empty(member_str(state, "phase"@)) == "awaiting_email"@ {
            Some((email, otp))
        } else {
            None
        },
        None => None,
    }
}

/// The answer of the awaiting-e-mail round once the sender has answered
/// `sent`: its error, or the code-sent step that keeps the code's hash.
pub open spec fn sent_answer(
    ttl: u32,
    email: Seq<char>,
    tries: u8,
    now: u64,
    otp: Seq<char>,
    sent: Result<(), String>,
    r: Result<ChallengeOutcome, CertError>,
) -> bool {
    match sent {
        Err(e) => r matches Err(CertError::InvalidRequest(m)) && m@ == "email send failed: "@ + e@,
        Ok(_) => r matches Ok(ChallengeOutcome::Pending { status_message, remaining_tries, remaining_time_secs, next_state })
            && status_message@ == "Code sent to "@ + email
            && remaining_tries == tries
            && remaining_time_secs == ttl
            && email_code_state(next_state, email, sha_hex(otp), expiry(now, ttl), tries as u64),
    }
}

/// What one round of the e-mail challenge gives back, at time `now` (seconds)
/// and with `otp` as the fresh code.
pub open spec fn email_round(ttl: u32, state: FieldsView, params: FieldsView, now: u64, otp: Seq<char>, r: Result<ChallengeOutcome, CertError>) -> bool {
    match member_str(params, "email"@) {
        None => r matches Err(CertError::InvalidRequest(m)) && m@ == "missing 'email' parameter"@,
        Some(email) => {
            let phase = text_or_empty(member_str(state, "phase"@));
            let tries = tries_of(state);
            if phase == "awaiting_email"@ {
                exists|sent: Result<(), String>| #[trigger] sent_answer(ttl, email, tries, now, otp, sent, r)
            } else if phase == "awaiting_code"@ {
                let expires_at = u64_or(member_u64(state, "expires_at"@), 0);
                let stored = text_or_empty(member_str(state, "otp_hash"@));
                if now > expires_at {
                    r matches Ok(ChallengeOutcome::Denied(m)) && m@ == "email code expired; please restart enrollment"@
                } else {
                    match member_str(params, "code"@) {
                        None => r matches Ok(ChallengeOutcome::Denied(m)) && m@ == "missing 'code' parameter"@,
                        Some(code) => if sha_hex(code) == stored {
                            r matches Ok(ChallengeOutcome::Approved { attestation: None })
                        } else if tries <= 1 {
                            r matches Ok(ChallengeOutcome::Denied(m)) && m@ == "incorrect code: no attempts remaining"@
                        } else {
                            r matches Ok(ChallengeOutcome::Pending { status_message, remaining_tries, remaining_time_secs, next_state })
                                && remaining_tries == tries - 1
                                && remaining_time_secs == (expires_at - now) as u32
                                && status_message@ == "Incorrect code \u{2014} "@ + crate::text::decimal_text(remaining_tries as nat) + " attempt(s) remaining"@
                                && email_code_state(next_state, email, stored, expires_at, remaining_tries as u64)
                        },
                    }
                }
            } else {
                r matches Ok(ChallengeOutcome::Denied(m)) && m@ == "unknown challenge phase"@
            }
        },
    }
}

/// The fields of the e-mail challenge state once a code is out.
fn email_fields(email: String, otp_hash: String, expires_at: u64, tries: u64) -> (r: ChallengeState)
    ensures
        email_code_state(r, email@, otp_hash@, expires_at, tries),
{
    let k1 = string_from_static("phase");
    let k2 = string_from_static("email");
    let k3 = string_from_static("otp_hash");
    let k4 = string_from_static("expires_at");
    let k5 = string_from_static("remaining_tries");
    let ph = string_from_static("awaiting_code");
    let ghost (v1, v2, v3, v4, v5, e, h, p) = (k1@, k2@, k3@, k4@, k5@, email@, otp_hash@, ph@);
    let entries = vec![
        (k1, JsonScalar::Str(ph)),
        (k2, JsonScalar::Str(email)),
        (k3, JsonScalar::Str(otp_hash)),
        (k4, JsonScalar::Uint(expires_at)),
        (k5, JsonScalar::Uint(tries)),
    ];
    let data = JsonFields { entries };
    proof {
        reveal_strlit("phase");
        reveal_strlit("email");
        reveal_strlit("otp_hash");
        reveal_strlit("expires_at");
        reveal_strlit("remaining_tries");
        let f = data@;
        assert(f.len() == 5);
        assert(f[0] == (v1, ScalarView::Str(p)));
        assert(f[1] == (v2, ScalarView::Str(e)));
        assert(f[2] == (v3, ScalarView::Str(h)));
        assert(f[3] == (v4, ScalarView::Uint(expires_at)));
        assert(f[4] == (v5, ScalarView::Uint(tries)));
        assert(f.drop_first()[0] == f[1]);
        assert(f.drop_first().drop_first()[0] == f[2]);
        assert(f.drop_first().drop_first().drop_first()[0] == f[3]);
        assert(f.drop_first().drop_first().drop_first().drop_first()[0] == f[4]);
        assert(v1.len() == 5 && v2.len() == 5 && v3.len() == 8 && v4.len() == 10 && v5.len() == 15);
        assert(v1[0] != v2[0]);
        assert(v1 != v2 && v1 != v3 && v1 != v4 && v1 != v5);
        assert(v2 != v3 && v2 != v4 && v2 != v5);
        assert(v3 != v4 && v3 != v5 && v4 != v5);
        reveal_with_fuel(member, 6);
    }
    ChallengeState { challenge_type: string_from_static("email"), data }
}

/// The address and code a round mails, if it mails anything.
pub fn mail_for(state: &ChallengeState, params: &JsonFields, otp: &str) -> (r: Option<(String, String)>)
    ensures
        match email_to_mail(state.data@, params@, otp@) {
            None => r is None,
            Some((a, c)) => r matches Some((x, y)) && x@ == a && y@ == c,
        },
{
    let email = match params.get_str("email") {
        Some(e) => e,
        None => return None,
    };
    let phase = match state.data.get_str("phase") {
        Some(p) => p,
        None => String::new(),
    };
    if str_eq(phase.as_str(), "awaiting_email") {
        Some((email, string_from_static(otp)))
    } else {
        None
    }
}

/// Delivers a one-time code to an address.
pub trait EmailSender {
    fn send(&self, address: &str, code: &str) -> Result<(), String>;
}

/// E-mail challenge, two rounds: the client sends `{ "email": ... }` and the
/// CA mails a 6-digit code; then the client sends `{ "email": ..., "code":
/// "123456" }`.
pub struct EmailChallenge<S: EmailSender> {
    pub sender: S,
    pub code_ttl_secs: u32,
    pub max_tries: u8,
}

impl<S: EmailSender> EmailChallenge<S> {
    /// Codes live 300 seconds; three tries.
    pub fn new(sender: S) -> (r: EmailChallenge<S>)
        ensures
            r.sender == sender,
            r.code_ttl_secs == 300,
            r.max_tries == 3,
    {
        EmailChallenge { sender, code_ttl_secs: 300, max_tries: 3 }
    }

    pub fn with_ttl(self, ttl_secs: u32) -> (r: EmailChallenge<S>)
        ensures
            r.sender == self.sender,
            r.code_ttl_secs == ttl_secs,
            r.max_tries == self.max_tries,
    {
        EmailChallenge { sender: self.sender, code_ttl_secs: ttl_secs, max_tries: self.max_tries }
    }

    pub fn with_max_tries(self, max_tries: u8) -> (r: EmailChallenge<S>)
        ensures
            r.sender == self.sender,
            r.code_ttl_secs == self.code_ttl_secs,
            r.max_tries == max_tries,
    {
        EmailChallenge { sender: self.sender, code_ttl_secs: self.code_ttl_secs, max_tries }
    }

    pub fn challenge_type(&self) -> (r: &'static str)
        ensures
            r@ == "email"@,
    {
        "email"
    }

    /// The first state waits for the address.
    pub fn begin(&self, req: &CertRequest) -> (r: ChallengeState)
        ensures
            r.challenge_type@ == "email"@,
            member_str(r.data@, "phase"@) == Some("awaiting_email"@),
            member_u64(r.data@, "remaining_tries"@) == Some(self.max_tries as u64),
            member_u64(r.data@, "code_ttl_secs"@) == Some(self.code_ttl_secs as u64),
    {
        let k1 = string_from_static("phase");
        let k2 = string_from_static("remaining_tries");
        let k3 = string_from_static("code_ttl_secs");
        let ph = string_from_static("awaiting_email");
        let ghost (v1, v2, v3, p) = (k1@, k2@, k3@, ph@);
        let tries = self.max_tries as u64;
        let ttl = self.code_ttl_secs as u64;
        let entries = vec![(k1, JsonScalar::Str(ph)), (k2, JsonScalar::Uint(tries)), (k3, JsonScalar::Uint(ttl))];
        let data = JsonFields { entries };
        proof {
            reveal_strlit("phase");
            reveal_strlit("remaining_tries");
            reveal_strlit("code_ttl_secs");
            let f = data@;
            assert(f[0] == (v1, ScalarView::Str(p)));
            assert(f[1] == (v2, ScalarView::Uint(tries)));
            assert(f[2] == (v3, ScalarView::Uint(ttl)));
            assert(f.drop_first()[0] == f[1]);
            assert(f.drop_first().drop_first()[0] == f[2]);
            assert(v1.len() == 5 && v2.len() == 15 && v3.len() == 13);
            reveal_with_fuel(member, 4);
        }
        ChallengeState { challenge_type: string_from_static("email"), data }
    }

    /// The answer of the awaiting-e-mail round at time `now`, once the
    /// sender has answered `sent` on mailing `otp` to `email`.
    pub fn answer_sent(&self, email: String, tries: u8, now: u64, otp: &str, sent: Result<(), String>) -> (r: Result<
        ChallengeOutcome,
        CertError,
    >)
        ensures
            sent_answer(self.code_ttl_secs, email@, tries, now, otp@, sent, r),
    {
        match sent {
            Ok(()) => {},
            Err(e) => {
                let mut m = string_from_static("email send failed: ");
                push_text(&mut m, e.as_str());
                return Err(CertError::InvalidRequest(m));
            },
        }
        let otp_hash = sha256_hex(otp);
        let expires_at = now.saturating_add(self.code_ttl_secs as u64);
        let mut status_message = string_from_static("Code sent to ");
        push_text(&mut status_message, email.as_str());
        let next_state = email_fields(email, otp_hash, expires_at, tries as u64);
        Ok(ChallengeOutcome::Pending { status_message, remaining_tries: tries, remaining_time_secs: self.code_ttl_secs, next_state })
    }

    /// One round at time `now` (seconds since the epoch), with `otp` as the
    /// code to mail if this round sends one: the pair that
    /// [`mail_for`] gives is mailed, and [`Self::answer_sent`] answers.
    pub fn verify_at(&self, state: &ChallengeState, params: &JsonFields, now: u64, otp: &str) -> (r: Result<ChallengeOutcome, CertError>)
        ensures
            email_round(self.code_ttl_secs, state.data@, params@, now, otp@, r),
    {
        let email = match params.get_str("email") {
            Some(e) => e,
            None => return Err(CertError::InvalidRequest(string_from_static("missing 'email' parameter"))),
        };
        let phase = match state.data.get_str("phase") {
            Some(p) => p,
            None => String::new(),
        };
        let remaining_tries: u8 = match state.data.get_u64("remaining_tries") {
            Some(n) => (n % 256) as u8,
            None => 1,
        };
        if let Some((address, code)) = mail_for(state, params, otp) {
            let sent = self.sender.send(address.as_str(), code.as_str());
            let r = self.answer_sent(address, remaining_tries, now, otp, sent);
            proof {
                assert(sent_answer(self.code_ttl_secs, email@, remaining_tries, now, otp@, sent, r));
                assert(member_str(params@, "email"@) == Some(email@));
                assert(remaining_tries == tries_of(state.data@));
                assert(text_or_empty(member_str(state.data@, "phase"@)) == "awaiting_email"@);
            }
            return r;
        }
        if !str_eq(phase.as_str(), "awaiting_code") {
            return Ok(ChallengeOutcome::Denied(string_from_static("unknown challenge phase")));
        }
        let expires_at = match state.data.get_u64("expires_at") {
            Some(t) => t,
            None => 0,
        };
        if now > expires_at {
            return Ok(ChallengeOutcome::Denied(string_from_static("email code expired; please restart enrollment")));
        }
        let code = match params.get_str("code") {
            Some(c) => c,
            None => return Ok(ChallengeOutcome::Denied(string_from_static("missing 'code' parameter"))),
        };
        let stored = match state.data.get_str("otp_hash") {
            Some(h) => h,
            None => String::new(),
        };
        let h = sha256_hex(code.as_str());
        if str_eq(h.as_str(), stored.as_str()) {
            return Ok(ChallengeOutcome::Approved { attestation: None });
        }
        if remaining_tries <= 1 {
            return Ok(ChallengeOutcome::Denied(string_from_static("incorrect code: no attempts remaining")));
        }
        let new_tries = remaining_tries - 1;
        let count = crate::text::u64_text(new_tries as u64);
        let status_message = concat3("Incorrect code \u{2014} ", count.as_str(), " attempt(s) remaining");
        let remaining_time = (expires_at - now) as u32;
        let next_state = email_fields(email, stored, expires_at, new_tries as u64);
        Ok(
            ChallengeOutcome::Pending {
                status_message,
                remaining_tries: new_tries,
                remaining_time_secs: remaining_time,
                next_state,
            },
        )
    }

    /// One round now, with a fresh random code.
    pub fn verify(&self, state: &ChallengeState, params: &JsonFields) -> (r: Result<ChallengeOutcome, CertError>)
        ensures
            exists|now: u64, n: nat| n < 1000000 && #[trigger] email_round(self.code_ttl_secs, state.data@, params@, now, otp_text(n), r),
    {
        let now = crate::clock::now_secs();
        let otp = generate_otp();
        let r = self.verify_at(state, params, now, otp.as_str());
        proof {
            let n = choose|n: nat| n < 1000000 && otp@ == #[trigger] otp_text(n);
            assert(email_round(self.code_ttl_secs, state.data@, params@, now, otp_text(n), r));
        }
        r
    }
}

} // verus!
