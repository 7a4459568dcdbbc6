//! A compiler for textual LightVerSec (LVS) trust schemas, to the binary
//! TLV form of the schema model.
//!
//! Grammar:
//!
//! ```text
//! // line comment
//! #rule_id: /comp/comp/...  [ <= #signer_id, #signer_id ]
//! ```
//!
//! A component is a quoted literal (`"KEY"`) or a pattern variable (`_name`,
//! or `_` anonymous); an unquoted bareword is an error. `<=` lists the rules
//! whose keys may sign data matching this rule. Each rule lowers to a chain
//! of nodes from the shared start node: a literal is a value edge, a
//! variable a pattern edge; signing relations become the data node's key
//! nodes.

use vstd::prelude::*;

use crate::text::{push_text, string_from_static, trimmed, utf8_bytes};
use crate::tlv::{tlv_encode, write_tlv};

verus! {

// ---------------------------------------------------------------------------
// Source text
// ---------------------------------------------------------------------------

/// Position of the first `c` in `s`, or its length.
pub open spec fn first_of(s: Seq<char>, c: char) -> nat
    decreases s.len(),
{
    if s.len() == 0 {
        0
    } else if s[0] == c {
        0
    } else {
        1 + first_of(s.drop_first(), c)
    }
}

/// The first `c` of a text is within it, and none comes before it.
pub proof fn lemma_first_of(s: Seq<char>, c: char)
    ensures
        first_of(s, c) <= s.len(),
        first_of(s, c) < s.len() ==> s[first_of(s, c) as int] == c,
        forall|i: int| 0 <= i < first_of(s, c) ==> s[i] != c,
    decreases s.len(),
{
    if s.len() > 0 && s[0] != c {
        lemma_first_of(s.drop_first(), c);
        assert forall|i: int| 0 <= i < first_of(s, c) implies s[i] != c by {
            if i > 0 {
                assert(s[i] == s.drop_first()[i - 1]);
            }
        }
    }
}

/// Position of the first `a` immediately followed by `b`, if any.
pub open spec fn first_pair(s: Seq<char>, a: char, b: char) -> Option<int>
    decreases s.len(),
{
    if s.len() < 2 {
        None
    } else if s[0] == a && s[1] == b {
        Some(0)
    } else {
        match first_pair(s.drop_first(), a, b) {
            Some(i) => Some(i + 1),
            None => None,
        }
    }
}

pub proof fn lemma_first_pair(s: Seq<char>, a: char, b: char)
    ensures
        first_pair(s, a, b) matches Some(i) ==> 0 <= i && i + 2 <= s.len(),
    decreases s.len(),
{
    if s.len() >= 2 && !(s[0] == a && s[1] == b) {
        lemma_first_pair(s.drop_first(), a, b);
    }
}

/// The lines of a text (`str::lines`): split at `\n`, a `\r` before a `\n`
/// dropped, and no empty line after a final `\n`.
pub open spec fn lines_of(s: Seq<char>) -> Seq<Seq<char>>
    decreases s.len(),
{
    if s.len() == 0 {
        Seq::empty()
    } else {
        let k = first_of(s, '\n');
        if k >= s.len() {
            seq![s]
        } else {
            let raw = s.take(k as int);
            let line = if raw.len() > 0 && raw.last() == '\r' {
                raw.drop_last()
            } else {
                raw
            };
            proof {
                lemma_first_of(s, '\n');
            }
            seq![line] + lines_of(s.skip(k as int + 1))
        }
    }
}

/// A line without its `//` comment.
pub open spec fn uncommented(s: Seq<char>) -> Seq<char> {
    match first_pair(s, '/', '/') {
        Some(i) => s.take(i),
        None => s,
    }
}

/// The non-empty trimmed pieces of `s` between occurrences of `c`, in order.
pub open spec fn pieces(s: Seq<char>, c: char) -> Seq<Seq<char>>
    decreases s.len(),
{
    let k = first_of(s, c);
    let t = trimmed(s.take(k as int));
    let rest = if k >= s.len() {
        Seq::empty()
    } else {
        proof {
            lemma_first_of(s, c);
        }
        pieces(s.skip(k as int + 1), c)
    };
    if t.len() == 0 {
        rest
    } else {
        seq![t] + rest
    }
}

/// A signer reference without its leading `#`.
pub open spec fn strip_hash(t: Seq<char>) -> Seq<char> {
    if t.len() > 0 && t[0] == '#' {
        t.skip(1)
    } else {
        t
    }
}

// ---------------------------------------------------------------------------
// Rules
// ---------------------------------------------------------------------------

/// One component of a rule's name pattern.
#[derive(Debug, Clone, PartialEq, Eq)]
pub enum Comp {
    Literal(Vec<u8>),
    /// A pattern variable: `Some(name)` is captured (a tag symbol), `None`
    /// anonymous.
    Var(Option<String>),
}

pub enum CompView {
    Literal(Seq<u8>),
    Var(Option<Seq<char>>),
}

impl View for Comp {
    type V = CompView;

    open spec fn view(&self) -> CompView {
        match self {
            Comp::Literal(v) => CompView::Literal(v@),
            Comp::Var(None) => CompView::Var(None),
            Comp::Var(Some(n)) => CompView::Var(Some(n@)),
        }
    }
}

/// One rule: its id, its name pattern, and the rules whose keys may sign it.
#[derive(Debug, Clone, PartialEq, Eq)]
pub struct Rule {
    pub id: String,
    pub pattern: Vec<Comp>,
    pub signers: Vec<String>,
}

pub struct RuleView {
    pub id: Seq<char>,
    pub pattern: Seq<CompView>,
    pub signers: Seq<Seq<char>>,
}

impl View for Rule {
    type V = RuleView;

    open spec fn view(&self) -> RuleView {
        RuleView { id: self.id@, pattern: comps_view(self.pattern@), signers: strings_view(self.signers@) }
    }
}

pub open spec fn strings_view(v: Seq<String>) -> Seq<Seq<char>> {
    v.map_values(|s: String| s@)
}

/// The signer references without their leading `#`.
pub open spec fn stripped(v: Seq<Seq<char>>) -> Seq<Seq<char>> {
    v.map_values(|t: Seq<char>| strip_hash(t))
}

pub open spec fn comps_view(v: Seq<Comp>) -> Seq<CompView> {
    v.map_values(|c: Comp| c@)
}

pub open spec fn rules_view(rules: Seq<Rule>) -> Seq<RuleView> {
    rules.map_values(|r: Rule| r@)
}

/// Why an LVS source failed to compile.
#[derive(Debug, Clone, PartialEq, Eq)]
pub enum LvsCompileError {
    Syntax { line: usize, msg: String },
    UnknownSigner { rule: String, signer: String },
    DuplicateRule(String),
}

pub enum ErrView {
    Syntax(nat, Seq<char>),
    UnknownSigner(Seq<char>, Seq<char>),
    DuplicateRule(Seq<char>),
}

impl View for LvsCompileError {
    type V = ErrView;

    open spec fn view(&self) -> ErrView {
        match self {
            LvsCompileError::Syntax { line, msg } => ErrView::Syntax(*line as nat, msg@),
            LvsCompileError::UnknownSigner { rule, signer } => ErrView::UnknownSigner(rule@, signer@),
            LvsCompileError::DuplicateRule(id) => ErrView::DuplicateRule(id@),
        }
    }
}

impl LvsCompileError {
    /// The message of the error.
    pub fn message(&self) -> (r: String)
        ensures
            r@ == match self@ {
                ErrView::Syntax(line, msg) => "line "@ + crate::text::decimal_text(line) + ": "@ + msg,
                ErrView::UnknownSigner(rule, signer) => "rule '"@ + rule + "' signs with unknown rule '"@ + signer + "'"@,
                ErrView::DuplicateRule(id) => "duplicate rule '"@ + id + "'"@,
            },
    {
        match self {
            LvsCompileError::Syntax { line, msg } => {
                let mut m = string_from_static("line ");
                let n = crate::text::u64_text(*line as u64);
                push_text(&mut m, n.as_str());
                push_text(&mut m, ": ");
                push_text(&mut m, msg.as_str());
                m
            },
            LvsCompileError::UnknownSigner { rule, signer } => {
                let mut m = string_from_static("rule '");
                push_text(&mut m, rule.as_str());
                push_text(&mut m, "' signs with unknown rule '");
                push_text(&mut m, signer.as_str());
                push_text(&mut m, "'");
                m
            },
            LvsCompileError::DuplicateRule(id) => {
                let mut m = string_from_static("duplicate rule '");
                push_text(&mut m, id.as_str());
                push_text(&mut m, "'");
                m
            },
        }
    }
}

/// The component a non-empty segment stands for: a quoted literal or an
/// underscore-led variable; anything else is malformed.
pub open spec fn comp_of(seg: Seq<char>) -> Option<CompView> {
    if seg.len() > 0 && seg[0] == '"' {
        let inner = seg.skip(1);
        if inner.len() > 0 && inner.last() == '"' {
            Some(CompView::Literal(utf8_bytes(inner.drop_last())))
        } else {
            None
        }
    } else if seg.len() > 0 && seg[0] == '_' {
        let name = seg.skip(1);
        Some(CompView::Var(if name.len() == 0 { None } else { Some(name) }))
    } else {
        None
    }
}

/// The components of the segments, or `None` at the first malformed one.
pub open spec fn comps_of(segs: Seq<Seq<char>>) -> Option<Seq<CompView>>
    decreases segs.len(),
{
    if segs.len() == 0 {
        Some(Seq::empty())
    } else {
        match (comp_of(segs[0]), comps_of(segs.drop_first())) {
            (Some(c), Some(rest)) => Some(seq![c] + rest),
            _ => None,
        }
    }
}

/// What one source line (number `line`) adds to the rules read so far:
/// nothing, a rule, or an error.
pub open spec fn line_result(raw: Seq<char>, line: nat, ids: Seq<Seq<char>>) -> Option<Result<RuleView, ErrView>> {
    let text = trimmed(uncommented(raw));
    if text.len() == 0 {
        None
    } else if text[0] != '#' {
        Some(Err(ErrView::Syntax(line, "rule must start with '#'"@)))
    } else {
        let id_rest = text.skip(1);
        let colon = first_of(id_rest, ':');
        if colon >= id_rest.len() {
            Some(Err(ErrView::Syntax(line, "expected ':' after rule id"@)))
        } else {
            let id = trimmed(id_rest.take(colon as int));
            let rest = id_rest.skip(colon as int + 1);
            if id.len() == 0 {
                Some(Err(ErrView::Syntax(line, "empty rule id"@)))
            } else {
                let (pattern_str, signers) = match first_pair(rest, '<', '=') {
                    Some(a) => (rest.take(a), stripped(pieces(rest.skip(a + 2), ','))),
                    None => (rest, Seq::empty()),
                };
                match comps_of(pieces(pattern_str, '/')) {
                    None => Some(Err(ErrView::Syntax(line, "malformed component"@))),
                    Some(pattern) => if pattern.len() == 0 {
                        Some(Err(ErrView::Syntax(line, "rule has no name components"@)))
                    } else if ids.contains(id) {
                        Some(Err(ErrView::DuplicateRule(id)))
                    } else {
                        Some(Ok(RuleView { id, pattern, signers }))
                    },
                }
            }
        }
    }
}

/// The ids of the rules.
pub open spec fn ids_of(acc: Seq<RuleView>) -> Seq<Seq<char>> {
    acc.map_values(|r: RuleView| r.id)
}

/// The rules of the lines from line number `first` on, after the rules
/// `acc` already read.
pub open spec fn parse_lines(lines: Seq<Seq<char>>, first: nat, acc: Seq<RuleView>) -> Result<Seq<RuleView>, ErrView>
    decreases lines.len(),
{
    if lines.len() == 0 {
        Ok(acc)
    } else {
        match line_result(lines[0], first, ids_of(acc)) {
            None => parse_lines(lines.drop_first(), first + 1, acc),
            Some(Err(e)) => Err(e),
            Some(Ok(r)) => parse_lines(lines.drop_first(), first + 1, acc.push(r)),
        }
    }
}

/// The rules of an LVS source, or the first error.
pub open spec fn lvs_rules(source: Seq<char>) -> Result<Seq<RuleView>, ErrView> {
    parse_lines(lines_of(source), 1, Seq::empty())
}

// ---------------------------------------------------------------------------
// Reading the source
// ---------------------------------------------------------------------------

proof fn lemma_first_of_at(w: Seq<char>, c: char, k: int)
    requires
        0 <= k <= w.len(),
        forall|i: int| 0 <= i < k ==> w[i] != c,
        k == w.len() || w[k] == c,
    ensures
        first_of(w, c) == k,
    decreases w.len(),
{
    if w.len() > 0 && w[0] != c {
        assert forall|i: int| 0 <= i < k - 1 implies w.drop_first()[i] != c by {
            assert(w.drop_first()[i] == w[i + 1]);
        }
        if k < w.len() {
            assert(w.drop_first()[k - 1] == w[k]);
        }
        lemma_first_of_at(w.drop_first(), c, k - 1);
    }
}

/// Position of the first `c` in `s` at or after `from`, or the length.
fn find_char(s: &str, from: usize, c: char) -> (k: usize)
    requires
        from <= s@.len(),
    ensures
        from <= k <= s@.len(),
        k == from + first_of(s@.skip(from as int), c),
{
    let n = s.unicode_len();
    let mut j = from;
    while j < n && s.get_char(j) != c
        invariant
            from <= j <= n,
            n == s@.len(),
            forall|i: int| from <= i < j ==> s@[i] != c,
        decreases n - j,
    {
        j = j + 1;
    }
    proof {
        let w = s@.skip(from as int);
        assert forall|i: int| 0 <= i < j - from implies w[i] != c by {
            assert(w[i] == s@[from + i]);
        }
        if j < n {
            assert(w[j - from] == s@[j as int]);
        }
        lemma_first_of_at(w, c, j - from);
    }
    j
}

/// Position of the first `a` followed by `b` in `s`.
fn find_pair(s: &str, a: char, b: char) -> (r: Option<usize>)
    ensures
        match first_pair(s@, a, b) {
            None => r is None,
            Some(i) => r matches Some(k) && k == i,
        },
{
    let n = s.unicode_len();
    if n < 2 {
        return None;
    }
    let ghost v = s@;
    let mut i: usize = 0;
    proof {
        assert(v.skip(0) =~= v);
    }
    while i + 1 < n
        invariant
            n == s@.len(),
            n >= 2,
            i + 1 <= n,
            v == s@,
            first_pair(v, a, b) == match first_pair(v.skip(i as int), a, b) {
                Some(j) => Some(j + i),
                None => None,
            },
        decreases n - i,
    {
        let ghost w = v.skip(i as int);
        proof {
            assert(w[0] == s@[i as int]);
            assert(w[1] == s@[i + 1]);
            assert(w.drop_first() =~= v.skip(i + 1));
        }
        if s.get_char(i) == a && s.get_char(i + 1) == b {
            return Some(i);
        }
        i = i + 1;
    }
    proof {
        assert(v.skip(i as int).len() < 2);
    }
    None
}

pub open spec fn str_views(v: Seq<&str>) -> Seq<Seq<char>> {
    v.map_values(|t: &str| t@)
}

/// The non-empty trimmed pieces of `s` between occurrences of `c`.
fn pieces_of<'a>(s: &'a str, c: char) -> (r: Vec<&'a str>)
    ensures
        str_views(r@) == pieces(s@, c),
{
    let n = s.unicode_len();
    let mut out: Vec<&'a str> = Vec::new();
    let mut pos: usize = 0;
    proof {
        assert(s@.skip(0) =~= s@);
        assert(str_views(out@) + pieces(s@, c) =~= pieces(s@, c));
    }
    loop
        invariant
            pos <= n,
            n == s@.len(),
            pieces(s@, c) == str_views(out@) + pieces(s@.skip(pos as int), c),
        decreases n - pos,
    {
        let ghost w = s@.skip(pos as int);
        let end = find_char(s, pos, c);
        let piece = s.substring_char(pos, end);
        let t = crate::text::trim_text(piece);
        proof {
            assert(w.take(end - pos) =~= piece@);
            lemma_first_of(w, c);
            if end < n {
                assert(w.skip(end - pos + 1) =~= s@.skip(end + 1));
            }
        }
        let ghost before = str_views(out@);
        if t.unicode_len() > 0 {
            out.push(t);
            proof {
                assert(str_views(out@) =~= before.push(t@));
            }
        }
        if end >= n {
            proof {
                assert(pieces(w, c) == (if t@.len() == 0 { Seq::<Seq<char>>::empty() } else { seq![t@] }));
                assert(str_views(out@) =~= before + pieces(w, c));
            }
            return out;
        }
        proof {
            let rest = pieces(s@.skip(end + 1), c);
            assert(pieces(w, c) == (if t@.len() == 0 { rest } else { seq![t@] + rest }));
            if t@.len() == 0 {
                assert(str_views(out@) + rest =~= before + pieces(w, c));
            } else {
                assert(str_views(out@) + rest =~= before + pieces(w, c));
            }
        }
        pos = end + 1;
    }
}

/// The component of one segment.
fn comp_from(seg: &str) -> (r: Option<Comp>)
    ensures
        match comp_of(seg@) {
            None => r is None,
            Some(c) => r matches Some(x) && x@ == c,
        },
{
    let n = seg.unicode_len();
    if n > 0 && seg.get_char(0) == '"' {
        if n >= 2 && seg.get_char(n - 1) == '"' {
            let inner = seg.substring_char(1, n - 1);
            let b = inner.as_bytes();
            let v = crate::tlv::slice_to_vec(b, 0, b.len());
            proof {
                assert(seg@.skip(1).drop_last() =~= inner@);
                assert(seg@.skip(1).last() == seg@[n - 1]);
                assert(b@.subrange(0, b@.len() as int) =~= b@);
            }
            return Some(Comp::Literal(v));
        }
        proof {
            if n >= 2 {
                assert(seg@.skip(1).last() == seg@[n - 1]);
            }
        }
        return None;
    }
    if n > 0 && seg.get_char(0) == '_' {
        let name = seg.substring_char(1, n);
        proof {
            assert(seg@.skip(1) =~= name@);
        }
        if n == 1 {
            return Some(Comp::Var(None));
        }
        return Some(Comp::Var(Some(string_from_static(name))));
    }
    None
}

/// The components of the segments, or `None` at the first malformed one.
fn comps_from(segs: &Vec<&str>) -> (r: Option<Vec<Comp>>)
    ensures
        match comps_of(str_views(segs@)) {
            None => r is None,
            Some(cs) => r matches Some(v) && comps_view(v@) == cs,
        },
{
    let ghost sv = str_views(segs@);
    let mut out: Vec<Comp> = Vec::new();
    let mut i: usize = 0;
    proof {
        assert(sv.skip(0) =~= sv);
        assert(comps_view(out@) =~= Seq::<CompView>::empty());
    }
    while i < segs.len()
        invariant
            i <= segs@.len(),
            sv == str_views(segs@),
            comps_of(sv) == match comps_of(sv.skip(i as int)) {
                Some(rest) => Some(comps_view(out@) + rest),
                None => None,
            },
        decreases segs@.len() - i,
    {
        proof {
            assert(sv.skip(i as int)[0] == segs@[i as int]@);
            assert(sv.skip(i as int).drop_first() =~= sv.skip(i + 1));
        }
        let c = match comp_from(segs[i]) {
            Some(c) => c,
            None => return None,
        };
        let ghost before = comps_view(out@);
        let ghost cv = c@;
        out.push(c);
        proof {
            assert(comps_view(out@) =~= before + seq![cv]);
            match comps_of(sv.skip(i + 1)) {
                Some(rest) => {
                    assert(before + (seq![cv] + rest) =~= comps_view(out@) + rest);
                },
                None => {},
            }
        }
        i = i + 1;
    }
    proof {
        assert(sv.skip(i as int).len() == 0);
        assert(comps_view(out@) + Seq::<CompView>::empty() =~= comps_view(out@));
    }
    Some(out)
}

/// The signer ids of the pieces, each without its leading `#`.
fn signers_from(segs: &Vec<&str>) -> (r: Vec<String>)
    ensures
        strings_view(r@) == stripped(str_views(segs@)),
{
    let mut out: Vec<String> = Vec::new();
    let mut i: usize = 0;
    while i < segs.len()
        invariant
            i <= segs@.len(),
            strings_view(out@) =~= stripped(str_views(segs@.take(i as int))),
        decreases segs@.len() - i,
    {
        let t = segs[i];
        let n = t.unicode_len();
        let ghost before = strings_view(out@);
        let s = if n > 0 && t.get_char(0) == '#' {
            string_from_static(t.substring_char(1, n))
        } else {
            string_from_static(t)
        };
        proof {
            if n > 0 && t@[0] == '#' {
                assert(t@.skip(1) =~= t@.subrange(1, n as int));
            }
            assert(s@ == strip_hash(t@));
        }
        out.push(s);
        proof {
            assert(strings_view(out@) =~= before.push(strip_hash(t@)));
            assert(segs@.take(i + 1) =~= segs@.take(i as int).push(t));
            assert(stripped(str_views(segs@.take(i + 1))) =~= stripped(str_views(segs@.take(i as int))).push(strip_hash(t@)));
        }
        i = i + 1;
    }
    proof {
        assert(segs@.take(i as int) =~= segs@);
    }
    out
}

pub open spec fn rule_ids(rules: Seq<Rule>) -> Seq<Seq<char>> {
    ids_of(rules_view(rules))
}

/// Whether a rule with id `id` is among `rules`.
fn has_rule(rules: &Vec<Rule>, id: &str) -> (r: bool)
    ensures
        r == rule_ids(rules@).contains(id@),
{
    let mut i: usize = 0;
    while i < rules.len()
        invariant
            i <= rules@.len(),
            forall|j: int| 0 <= j < i ==> rule_ids(rules@)[j] != id@,
        decreases rules@.len() - i,
    {
        if crate::text::str_eq(rules[i].id.as_str(), id) {
            proof {
                assert(rule_ids(rules@)[i as int] == id@);
            }
            return true;
        }
        i = i + 1;
    }
    false
}

/// What one source line adds to the rules read so far.
fn rule_from_line(raw: &str, line: usize, rules: &Vec<Rule>) -> (r: Option<Result<Rule, LvsCompileError>>)
    ensures
        match line_result(raw@, line as nat, rule_ids(rules@)) {
            None => r is None,
            Some(Ok(rv)) => r matches Some(Ok(x)) && x@ == rv,
            Some(Err(e)) => r matches Some(Err(x)) && x@ == e,
        },
{
    proof {
        lemma_first_pair(raw@, '/', '/');
    }
    let uncommented_text = match find_pair(raw, '/', '/') {
        Some(i) => raw.substring_char(0, i),
        None => raw,
    };
    proof {
        match first_pair(raw@, '/', '/') {
            Some(i) => {
                assert(uncommented_text@ =~= raw@.take(i));
            },
            None => {},
        }
    }
    let text = crate::text::trim_text(uncommented_text);
    let n = text.unicode_len();
    if n == 0 {
        return None;
    }
    if text.get_char(0) != '#' {
        return Some(Err(LvsCompileError::Syntax { line, msg: string_from_static("rule must start with '#'") }));
    }
    let id_rest = text.substring_char(1, n);
    proof {
        assert(id_rest@ =~= text@.skip(1));
    }
    let m = id_rest.unicode_len();
    let colon = find_char(id_rest, 0, ':');
    proof {
        assert(id_rest@.skip(0) =~= id_rest@);
    }
    if colon >= m {
        return Some(Err(LvsCompileError::Syntax { line, msg: string_from_static("expected ':' after rule id") }));
    }
    let idpart = id_rest.substring_char(0, colon);
    let id = crate::text::trim_text(idpart);
    let rest = id_rest.substring_char(colon + 1, m);
    proof {
        assert(idpart@ =~= id_rest@.take(colon as int));
        assert(rest@ =~= id_rest@.skip(colon + 1));
    }
    if id.unicode_len() == 0 {
        return Some(Err(LvsCompileError::Syntax { line, msg: string_from_static("empty rule id") }));
    }
    let (pattern_str, signers) = match find_pair(rest, '<', '=') {
        Some(a) => {
            proof {
                lemma_first_pair(rest@, '<', '=');
            }
            let p = rest.substring_char(0, a);
            let k = rest.unicode_len();
            let tail = rest.substring_char(a + 2, k);
            let sg = pieces_of(tail, ',');
            proof {
                assert(p@ =~= rest@.take(a as int));
                assert(tail@ =~= rest@.skip(a + 2));
            }
            (p, signers_from(&sg))
        },
        None => (rest, Vec::new()),
    };
    let ghost spec_split = match first_pair(rest@, '<', '=') {
        Some(a) => (rest@.take(a), stripped(pieces(rest@.skip(a + 2), ','))),
        None => (rest@, Seq::<Seq<char>>::empty()),
    };
    proof {
        assert(pattern_str@ == spec_split.0);
        assert(strings_view(signers@) =~= spec_split.1);
    }
    let segs = pieces_of(pattern_str, '/');
    let pattern = match comps_from(&segs) {
        Some(p) => p,
        None => return Some(Err(LvsCompileError::Syntax { line, msg: string_from_static("malformed component") })),
    };
    if pattern.len() == 0 {
        return Some(Err(LvsCompileError::Syntax { line, msg: string_from_static("rule has no name components") }));
    }
    if has_rule(rules, id) {
        return Some(Err(LvsCompileError::DuplicateRule(string_from_static(id))));
    }
    let r = Rule { id: string_from_static(id), pattern, signers };
    proof {
        assert(text@ == trimmed(uncommented(raw@)));
        assert(r@ == RuleView { id: id@, pattern: comps_of(pieces(spec_split.0, '/'))->0, signers: spec_split.1 });
    }
    Some(Ok(r))
}

/// Parse an LVS source into its rules.
fn parse(source: &str) -> (r: Result<Vec<Rule>, LvsCompileError>)
    requires
        source@.len() < usize::MAX,
    ensures
        match lvs_rules(source@) {
            Ok(rs) => r matches Ok(v) && rules_view(v@) == rs,
            Err(e) => r matches Err(x) && x@ == e,
        },
{
    let n = source.unicode_len();
    let mut rules: Vec<Rule> = Vec::new();
    let mut pos: usize = 0;
    let mut line: usize = 1;
    proof {
        assert(source@.skip(0) =~= source@);
        assert(rules_view(rules@) =~= Seq::<RuleView>::empty());
    }
    while pos < n
        invariant
            pos <= n,
            n == source@.len(),
            n < usize::MAX,
            1 <= line <= pos + 1,
            lvs_rules(source@) == parse_lines(lines_of(source@.skip(pos as int)), line as nat, rules_view(rules@)),
        decreases n - pos,
    {
        let ghost w = source@.skip(pos as int);
        let end = find_char(source, pos, '\n');
        let raw0 = source.substring_char(pos, end);
        let l = raw0.unicode_len();
        let raw = if end < n && l > 0 && raw0.get_char(l - 1) == '\r' {
            raw0.substring_char(0, l - 1)
        } else {
            raw0
        };
        proof {
            lemma_first_of(w, '\n');
            assert(raw0@ =~= w.take(end - pos));
            if end < n && l > 0 && raw0@[l - 1] == '\r' {
                assert(raw@ =~= raw0@.drop_last());
            }
            let ls = lines_of(w);
            if end < n {
                assert(w.skip(end - pos + 1) =~= source@.skip(end + 1));
                assert(ls == seq![raw@] + lines_of(source@.skip(end + 1)));
                assert(ls[0] == raw@);
                assert(ls.drop_first() =~= lines_of(source@.skip(end + 1)));
            } else {
                assert(w.take(end - pos) =~= w);
                assert(ls == seq![raw@]);
                assert(ls.drop_first() =~= Seq::<Seq<char>>::empty());
            }
        }
        let ghost before = rules_view(rules@);
        match rule_from_line(raw, line, &rules) {
            None => {},
            Some(Err(e)) => return Err(e),
            Some(Ok(rule)) => {
                let ghost rv = rule@;
                rules.push(rule);
                proof {
                    assert(rules_view(rules@) =~= before.push(rv));
                }
            },
        }
        if end >= n {
            proof {
                let ls = lines_of(w);
                assert(parse_lines(ls.drop_first(), line as nat + 1, rules_view(rules@)) == Ok::<Seq<RuleView>, ErrView>(rules_view(rules@)));
            }
            return Ok(rules);
        }
        pos = end + 1;
        line = line + 1;
    }
    Ok(rules)
}

// ---------------------------------------------------------------------------
// Lowering to the node graph
// ---------------------------------------------------------------------------

/// One node of the schema graph: its value edges (literal, destination),
/// its pattern edges (destination, tag), and the key nodes whose keys may
/// sign names that end at it.
#[derive(Debug, Clone, PartialEq, Eq)]
pub struct LvsNode {
    pub value_edges: Vec<(Vec<u8>, u64)>,
    pub pattern_edges: Vec<(u64, u64)>,
    pub key_nodes: Vec<u64>,
}

pub struct NodeView {
    pub value_edges: Seq<(Seq<u8>, u64)>,
    pub pattern_edges: Seq<(u64, u64)>,
    pub key_nodes: Seq<u64>,
}

impl View for LvsNode {
    type V = NodeView;

    open spec fn view(&self) -> NodeView {
        NodeView {
            value_edges: self.value_edges@.map_values(|e: (Vec<u8>, u64)| (e.0@, e.1)),
            pattern_edges: self.pattern_edges@,
            key_nodes: self.key_nodes@,
        }
    }
}

pub open spec fn nodes_view(v: Seq<LvsNode>) -> Seq<NodeView> {
    v.map_values(|n: LvsNode| n@)
}

pub open spec fn empty_node() -> NodeView {
    NodeView { value_edges: Seq::empty(), pattern_edges: Seq::empty(), key_nodes: Seq::empty() }
}

/// The schema graph of a set of rules: its nodes (node 0 is the start), the
/// number of pattern tags, and the names of the named tags.
pub struct LvsGraph {
    pub nodes: Vec<LvsNode>,
    pub named_pattern_num: u64,
    pub tag_symbols: Vec<(u64, String)>,
}

pub open spec fn tags_view(v: Seq<(u64, String)>) -> Seq<(u64, Seq<char>)> {
    v.map_values(|t: (u64, String)| (t.0, t.1@))
}

/// The state of the first pass: nodes, the current node, the next tag, the
/// named tags.
pub type ChainState = (Seq<NodeView>, u64, u64, Seq<(u64, Seq<char>)>);

/// Extend the chain at the current node with one node per component.
pub open spec fn chain(comps: Seq<CompView>, st: ChainState) -> ChainState
    decreases comps.len(),
{
    if comps.len() == 0 {
        st
    } else {
        let (nodes, cur, nt, tags) = st;
        let dest = nodes.len() as u64;
        let nodes1 = nodes.push(empty_node());
        let n = nodes1[cur as int];
        match comps[0] {
            CompView::Literal(v) => chain(
                comps.drop_first(),
                (nodes1.update(cur as int, NodeView { value_edges: n.value_edges.push((v, dest)), ..n }), dest, nt, tags),
            ),
            CompView::Var(name) => chain(
                comps.drop_first(),
                (
                    nodes1.update(cur as int, NodeView { pattern_edges: n.pattern_edges.push((dest, nt)), ..n }),
                    dest,
                    (nt + 1) as u64,
                    match name {
                        Some(x) => tags.push((nt, x)),
                        None => tags,
                    },
                ),
            ),
        }
    }
}

/// The first pass: one chain per rule from the start node, recording each
/// rule's terminal node.
pub open spec fn pass1(rules: Seq<RuleView>, nodes: Seq<NodeView>, terms: Seq<(Seq<char>, u64)>, nt: u64, tags: Seq<(u64, Seq<char>)>) -> (Seq<NodeView>, Seq<(Seq<char>, u64)>, u64, Seq<(u64, Seq<char>)>)
    decreases rules.len(),
{
    if rules.len() == 0 {
        (nodes, terms, nt, tags)
    } else {
        let (n2, cur, nt2, tags2) = chain(rules[0].pattern, (nodes, 0, nt, tags));
        pass1(rules.drop_first(), n2, terms.push((rules[0].id, cur)), nt2, tags2)
    }
}

/// The terminal node last recorded for `id`.
pub open spec fn lookup_last(terms: Seq<(Seq<char>, u64)>, id: Seq<char>) -> Option<u64>
    decreases terms.len(),
{
    if terms.len() == 0 {
        None
    } else if terms.last().0 == id {
        Some(terms.last().1)
    } else {
        lookup_last(terms.drop_last(), id)
    }
}

/// Add the key nodes of `signers` to node `data`.
pub open spec fn add_signers(id: Seq<char>, signers: Seq<Seq<char>>, terms: Seq<(Seq<char>, u64)>, nodes: Seq<NodeView>, data: u64) -> Result<Seq<NodeView>, ErrView>
    decreases signers.len(),
{
    if signers.len() == 0 {
        Ok(nodes)
    } else {
        match lookup_last(terms, signers[0]) {
            None => Err(ErrView::UnknownSigner(id, signers[0])),
            Some(k) => {
                let n = nodes[data as int];
                add_signers(id, signers.drop_first(), terms, nodes.update(data as int, NodeView { key_nodes: n.key_nodes.push(k), ..n }), data)
            },
        }
    }
}

/// The second pass: resolve each rule's signers to their terminal nodes.
pub open spec fn pass2(rules: Seq<RuleView>, terms: Seq<(Seq<char>, u64)>, nodes: Seq<NodeView>) -> Result<Seq<NodeView>, ErrView>
    decreases rules.len(),
{
    if rules.len() == 0 {
        Ok(nodes)
    } else {
        let data = match lookup_last(terms, rules[0].id) {
            Some(d) => d,
            None => 0,
        };
        match add_signers(rules[0].id, rules[0].signers, terms, nodes, data) {
            Err(e) => Err(e),
            Ok(n2) => pass2(rules.drop_first(), terms, n2),
        }
    }
}

/// The graph of a set of rules, or the first unknown signer.
pub open spec fn lvs_graph(rules: Seq<RuleView>) -> Result<(Seq<NodeView>, u64, Seq<(u64, Seq<char>)>), ErrView> {
    let (nodes, terms, nt, tags) = pass1(rules, seq![empty_node()], Seq::empty(), 0, Seq::empty());
    match pass2(rules, terms, nodes) {
        Err(e) => Err(e),
        Ok(n2) => Ok((n2, nt, tags)),
    }
}

pub open spec fn terms_view(v: Seq<(String, u64)>) -> Seq<(Seq<char>, u64)> {
    v.map_values(|t: (String, u64)| (t.0@, t.1))
}

fn new_node() -> (r: LvsNode)
    ensures
        r@ == empty_node(),
{
    let r = LvsNode { value_edges: Vec::new(), pattern_edges: Vec::new(), key_nodes: Vec::new() };
    proof {
        assert(r@.value_edges =~= Seq::<(Seq<u8>, u64)>::empty());
    }
    r
}

/// Extend the chain at node `cur` with one node per component of `pattern`;
/// the result is the chain's last node.
fn lower_chain(
    pattern: &Vec<Comp>,
    nodes: &mut Vec<LvsNode>,
    nt: &mut u64,
    tags: &mut Vec<(u64, String)>,
) -> (cur: u64)
    requires
        old(nodes)@.len() >= 1,
        *old(nt) < old(nodes)@.len(),
    ensures
        chain(comps_view(pattern@), (nodes_view(old(nodes)@), 0, *old(nt), tags_view(old(tags)@))) == (
            nodes_view(final(nodes)@),
            cur,
            *final(nt),
            tags_view(final(tags)@),
        ),
        final(nodes)@.len() == old(nodes)@.len() + pattern@.len(),
        cur < final(nodes)@.len(),
        *final(nt) < final(nodes)@.len(),
{
    let ghost pv = comps_view(pattern@);
    let ghost n0 = nodes_view(nodes@);
    let ghost nt0 = *nt;
    let ghost t0 = tags_view(tags@);
    let ghost len0 = nodes@.len();
    let mut cur: u64 = 0;
    let mut j: usize = 0;
    proof {
        assert(pv.skip(0) =~= pv);
    }
    while j < pattern.len()
        invariant
            j <= pattern@.len(),
            pv == comps_view(pattern@),
            nodes@.len() == len0 + j,
            cur < nodes@.len(),
            *nt < nodes@.len(),
            chain(pv, (n0, 0, nt0, t0)) == chain(pv.skip(j as int), (nodes_view(nodes@), cur, *nt, tags_view(tags@))),
        decreases pattern@.len() - j,
    {
        let ghost nv = nodes_view(nodes@);
        let ghost tv = tags_view(tags@);
        let ghost ntv = *nt;
        let dest = nodes.len() as u64;
        nodes.push(new_node());
        let c = cur as usize;
        let mut node = new_node();
        nodes.set_and_swap(c, &mut node);
        let ghost n = nv.push(empty_node())[cur as int];
        proof {
            assert(node@ == n);
            assert(pv.skip(j as int)[0] == pattern@[j as int]@);
            assert(pv.skip(j as int).drop_first() =~= pv.skip(j + 1));
        }
        match &pattern[j] {
            Comp::Literal(v) => {
                let ghost ve = node@.value_edges;
                let lit = crate::tlv::slice_to_vec(v.as_slice(), 0, v.len());
                proof {
                    assert(v@.subrange(0, v@.len() as int) =~= v@);
                }
                node.value_edges.push((lit, dest));
                proof {
                    assert(node@.value_edges =~= ve.push((v@, dest)));
                }
            },
            Comp::Var(name) => {
                node.pattern_edges.push((dest, *nt));
                match name {
                    Some(x) => {
                        let ghost tb = tags_view(tags@);
                        tags.push((*nt, x.clone()));
                        proof {
                            assert(tags_view(tags@) =~= tb.push((ntv, x@)));
                        }
                    },
                    None => {},
                }
                *nt = *nt + 1;
            },
        }
        nodes.set_and_swap(c, &mut node);
        proof {
            assert(nodes_view(nodes@) =~= nv.push(empty_node()).update(cur as int, nodes@[cur as int]@));
        }
        cur = dest;
        j = j + 1;
    }
    proof {
        assert(pv.skip(j as int).len() == 0);
    }
    cur
}

/// The terminal node last recorded for `id`.
fn find_terminal(terms: &Vec<(String, u64)>, id: &str) -> (r: Option<u64>)
    ensures
        r == lookup_last(terms_view(terms@), id@),
{
    let ghost tv = terms_view(terms@);
    let mut i: usize = terms.len();
    proof {
        assert(tv.take(i as int) =~= tv);
    }
    while i > 0
        invariant
            i <= terms@.len(),
            tv == terms_view(terms@),
            lookup_last(tv, id@) == lookup_last(tv.take(i as int), id@),
        decreases i,
    {
        proof {
            assert(tv.take(i as int).last() == (terms@[i - 1].0@, terms@[i - 1].1));
            assert(tv.take(i as int).drop_last() =~= tv.take(i - 1));
        }
        if crate::text::str_eq(terms[i - 1].0.as_str(), id) {
            return Some(terms[i - 1].1);
        }
        i = i - 1;
    }
    None
}

proof fn lemma_lookup_last_range(terms: Seq<(String, u64)>, id: Seq<char>, n: nat)
    requires
        forall|k: int| 0 <= k < terms.len() ==> #[trigger] terms[k].1 < n,
    ensures
        lookup_last(terms_view(terms), id) matches Some(d) ==> d < n,
    decreases terms.len(),
{
    if terms.len() > 0 {
        let tv = terms_view(terms);
        assert(tv.drop_last() =~= terms_view(terms.drop_last()));
        assert(tv.last() == (terms.last().0@, terms.last().1));
        assert forall|k: int| 0 <= k < terms.drop_last().len() implies #[trigger] terms.drop_last()[k].1 < n by {
            assert(terms.drop_last()[k] == terms[k]);
        }
        lemma_lookup_last_range(terms.drop_last(), id, n);
    }
}

/// Lower the rules to the schema graph; a signer must name a rule.
pub fn lower(rules: &Vec<Rule>) -> (r: Result<LvsGraph, LvsCompileError>)
    ensures
        match lvs_graph(rules_view(rules@)) {
            Ok((n, c, t)) => r matches Ok(g) && nodes_view(g.nodes@) == n && g.named_pattern_num == c && tags_view(g.tag_symbols@) == t,
            Err(e) => r matches Err(x) && x@ == e,
        },
{
    let ghost rv = rules_view(rules@);
    let mut nodes: Vec<LvsNode> = Vec::new();
    nodes.push(new_node());
    let mut terms: Vec<(String, u64)> = Vec::new();
    let mut nt: u64 = 0;
    let mut tags: Vec<(u64, String)> = Vec::new();
    proof {
        assert(nodes_view(nodes@) =~= seq![empty_node()]);
        assert(terms_view(terms@) =~= Seq::<(Seq<char>, u64)>::empty());
        assert(tags_view(tags@) =~= Seq::<(u64, Seq<char>)>::empty());
        assert(rv.skip(0) =~= rv);
    }
    let mut i: usize = 0;
    while i < rules.len()
        invariant
            i <= rules@.len(),
            rv == rules_view(rules@),
            nodes@.len() >= 1,
            nt < nodes@.len(),
            forall|k: int| 0 <= k < terms@.len() ==> #[trigger] terms@[k].1 < nodes@.len(),
            pass1(rv, seq![empty_node()], Seq::empty(), 0, Seq::empty()) == pass1(
                rv.skip(i as int),
                nodes_view(nodes@),
                terms_view(terms@),
                nt,
                tags_view(tags@),
            ),
        decreases rules@.len() - i,
    {
        proof {
            assert(rv.skip(i as int)[0] == rules@[i as int]@);
            assert(rv.skip(i as int).drop_first() =~= rv.skip(i + 1));
        }
        let ghost tb = terms_view(terms@);
        let cur = lower_chain(&rules[i].pattern, &mut nodes, &mut nt, &mut tags);
        terms.push((rules[i].id.clone(), cur));
        proof {
            assert(terms_view(terms@) =~= tb.push((rules@[i as int].id@, cur)));
        }
        i = i + 1;
    }
    proof {
        assert(rv.skip(i as int).len() == 0);
    }
    let ghost tv = terms_view(terms@);
    let ghost nlen = nodes@.len();
    let ghost after1 = nodes_view(nodes@);
    proof {
        assert(pass1(rv, seq![empty_node()], Seq::empty(), 0, Seq::empty()) == (after1, tv, nt, tags_view(tags@)));
    }
    let mut i: usize = 0;
    proof {
        assert(rv.skip(0) =~= rv);
    }
    while i < rules.len()
        invariant
            i <= rules@.len(),
            rv == rules_view(rules@),
            tv == terms_view(terms@),
            nodes@.len() == nlen,
            forall|k: int| 0 <= k < terms@.len() ==> #[trigger] terms@[k].1 < nlen,
            nt < nlen,
            pass1(rv, seq![empty_node()], Seq::empty(), 0, Seq::empty()) == (after1, tv, nt, tags_view(tags@)),
            pass2(rv, tv, after1) == pass2(rv.skip(i as int), tv, nodes_view(nodes@)),
        decreases rules@.len() - i,
    {
        let rule = &rules[i];
        proof {
            assert(rv.skip(i as int)[0] == rule@);
            assert(rv.skip(i as int).drop_first() =~= rv.skip(i + 1));
            lemma_lookup_last_range(terms@, rule.id@, nlen);
        }
        let data: u64 = match find_terminal(&terms, rule.id.as_str()) {
            Some(d) => d,
            None => 0,
        };
        proof {
            assert(data < nlen);
            assert(data == match lookup_last(tv, rv.skip(i as int)[0].id) {
                Some(x) => x,
                None => 0,
            });
        }
        let nodes_len = nodes.len();
        let d = data as usize;
        let mut j: usize = 0;
        let ghost sv = rule@.signers;
        let ghost at_rule = nodes_view(nodes@);
        proof {
            assert(sv.skip(0) =~= sv);
        }
        while j < rule.signers.len()
            invariant
                j <= rule.signers@.len(),
                sv == strings_view(rule.signers@),
                tv == terms_view(terms@),
                nodes@.len() == nlen,
                data < nlen,
                d == data,
                rv == rules_view(rules@),
                i < rules@.len(),
                rv.skip(i as int)[0] == rule@,
                pass1(rv, seq![empty_node()], Seq::empty(), 0, Seq::empty()) == (after1, tv, nt, tags_view(tags@)),
                pass2(rv, tv, after1) == pass2(rv.skip(i as int), tv, at_rule),
                data == match lookup_last(tv, rule@.id) {
                    Some(x) => x,
                    None => 0,
                },
                add_signers(rule@.id, sv, tv, at_rule, data) == add_signers(rule@.id, sv.skip(j as int), tv, nodes_view(nodes@), data),
            decreases rule.signers@.len() - j,
        {
            proof {
                assert(sv.skip(j as int)[0] == rule.signers@[j as int]@);
                assert(sv.skip(j as int).drop_first() =~= sv.skip(j + 1));
            }
            let k = match find_terminal(&terms, rule.signers[j].as_str()) {
                Some(k) => k,
                None => {
                    let e = LvsCompileError::UnknownSigner { rule: rule.id.clone(), signer: rule.signers[j].clone() };
                    proof {
                        assert(add_signers(rule@.id, sv.skip(j as int), tv, nodes_view(nodes@), data) == Err::<Seq<NodeView>, ErrView>(e@));
                        assert(pass2(rv.skip(i as int), tv, at_rule) == Err::<Seq<NodeView>, ErrView>(e@));
                    }
                    return Err(e);
                },
            };
            let ghost nv = nodes_view(nodes@);
            let mut node = new_node();
            nodes.set_and_swap(d, &mut node);
            let ghost kn = node@.key_nodes;
            node.key_nodes.push(k);
            nodes.set_and_swap(d, &mut node);
            proof {
                assert(nodes_view(nodes@) =~= nv.update(data as int, NodeView { key_nodes: kn.push(k), ..nv[data as int] }));
            }
            j = j + 1;
        }
        proof {
            assert(sv.skip(j as int).len() == 0);
        }
        i = i + 1;
    }
    proof {
        assert(rv.skip(i as int).len() == 0);
    }
    Ok(LvsGraph { nodes, named_pattern_num: nt, tag_symbols: tags })
}

// ---------------------------------------------------------------------------
// The binary form
// ---------------------------------------------------------------------------

/// The LVS binary format version.
pub const LVS_VERSION: u64 = 0x00011000;

pub const TN_COMPONENT_VALUE: u64 = 0x21;

pub const TN_PATTERN_TAG: u64 = 0x23;

pub const TN_NODE_ID: u64 = 0x25;

pub const TN_IDENTIFIER: u64 = 0x29;

pub const TN_VALUE_EDGE: u64 = 0x51;

pub const TN_PATTERN_EDGE: u64 = 0x53;

pub const TN_KEY_NODE_ID: u64 = 0x55;

pub const TN_VERSION: u64 = 0x61;

pub const TN_NODE: u64 = 0x63;

pub const TN_TAG_SYMBOL: u64 = 0x67;

pub const TN_NAMED_PATTERN_NUM: u64 = 0x69;

/// A non-negative integer in the shortest of 1, 2, 4 or 8 big-endian bytes.
pub open spec fn uint_bytes(v: u64) -> Seq<u8> {
    if v <= 0xFF {
        crate::tlv::be_bytes(v as nat, 1)
    } else if v <= 0xFFFF {
        crate::tlv::be_bytes(v as nat, 2)
    } else if v <= 0xFFFF_FFFF {
        crate::tlv::be_bytes(v as nat, 4)
    } else {
        crate::tlv::be_bytes(v as nat, 8)
    }
}

pub open spec fn uint_tlv(t: u64, v: u64) -> Seq<u8> {
    tlv_encode(t, uint_bytes(v))
}

/// The parts, one after another.
pub open spec fn concat_all(parts: Seq<Seq<u8>>) -> Seq<u8>
    decreases parts.len(),
{
    if parts.len() == 0 {
        Seq::empty()
    } else {
        concat_all(parts.drop_last()) + parts.last()
    }
}

pub open spec fn value_edge_wire(e: (Seq<u8>, u64)) -> Seq<u8> {
    tlv_encode(
        TN_VALUE_EDGE,
        uint_tlv(TN_NODE_ID, e.1) + tlv_encode(TN_COMPONENT_VALUE, seq![0x08u8, (e.0.len() % 256) as u8] + e.0),
    )
}

pub open spec fn pattern_edge_wire(e: (u64, u64)) -> Seq<u8> {
    tlv_encode(TN_PATTERN_EDGE, uint_tlv(TN_NODE_ID, e.0) + uint_tlv(TN_PATTERN_TAG, e.1))
}

pub open spec fn node_wire(i: u64, n: NodeView) -> Seq<u8> {
    tlv_encode(
        TN_NODE,
        uint_tlv(TN_NODE_ID, i) + concat_all(Seq::new(n.value_edges.len(), |k: int| value_edge_wire(n.value_edges[k])))
            + concat_all(Seq::new(n.pattern_edges.len(), |k: int| pattern_edge_wire(n.pattern_edges[k])))
            + concat_all(Seq::new(n.key_nodes.len(), |k: int| uint_tlv(TN_KEY_NODE_ID, n.key_nodes[k]))),
    )
}

pub open spec fn tag_wire(t: (u64, Seq<char>)) -> Seq<u8> {
    tlv_encode(TN_TAG_SYMBOL, uint_tlv(TN_PATTERN_TAG, t.0) + tlv_encode(TN_IDENTIFIER, utf8_bytes(t.1)))
}

/// The binary form of a schema graph.
pub open spec fn lvs_wire(nodes: Seq<NodeView>, count: u64, tags: Seq<(u64, Seq<char>)>) -> Seq<u8> {
    uint_tlv(TN_VERSION, LVS_VERSION) + uint_tlv(TN_NODE_ID, 0) + uint_tlv(TN_NAMED_PATTERN_NUM, count) + concat_all(
        Seq::new(nodes.len(), |i: int| node_wire(i as u64, nodes[i])),
    ) + concat_all(Seq::new(tags.len(), |i: int| tag_wire(tags[i])))
}

proof fn lemma_concat_step(f: spec_fn(int) -> Seq<u8>, i: nat)
    ensures
        concat_all(Seq::new(i + 1, f)) == concat_all(Seq::new(i, f)) + f(i as int),
{
    assert(Seq::new(i + 1, f).drop_last() =~= Seq::new(i, f));
}

/// Append `v` as an element of type `t`, in the shortest of 1, 2, 4 or 8
/// bytes.
fn write_uint(out: &mut Vec<u8>, t: u64, v: u64)
    ensures
        final(out)@ == old(out)@ + uint_tlv(t, v),
{
    let n: usize = if v <= 0xFF {
        1
    } else if v <= 0xFFFF {
        2
    } else if v <= 0xFFFF_FFFF {
        4
    } else {
        8
    };
    let mut be: Vec<u8> = Vec::new();
    crate::tlv::push_be(&mut be, v, n);
    proof {
        assert(be@ =~= uint_bytes(v));
    }
    write_tlv(out, t, be.as_slice());
}

fn emit_node(out: &mut Vec<u8>, i: u64, node: &LvsNode)
    ensures
        final(out)@ == old(out)@ + node_wire(i, node@),
{
    let mut nb: Vec<u8> = Vec::new();
    write_uint(&mut nb, TN_NODE_ID, i);
    let ghost n = node@;
    let ghost base = nb@;
    let ghost fv = |k: int| value_edge_wire(n.value_edges[k]);
    let mut k: usize = 0;
    proof {
        assert(Seq::new(0, fv) =~= Seq::<Seq<u8>>::empty());
        assert(nb@ =~= base + concat_all(Seq::new(0, fv)));
    }
    while k < node.value_edges.len()
        invariant
            k <= node.value_edges@.len(),
            n == node@,
            fv == (|k: int| value_edge_wire(n.value_edges[k])),
            nb@ == base + concat_all(Seq::new(k as nat, fv)),
        decreases node.value_edges@.len() - k,
    {
        let e = &node.value_edges[k];
        let mut ve: Vec<u8> = Vec::new();
        write_uint(&mut ve, TN_NODE_ID, e.1);
        let mut nc: Vec<u8> = Vec::new();
        nc.push(0x08);
        nc.push((e.0.len() % 256) as u8);
        crate::tlv::append_bytes(&mut nc, e.0.as_slice());
        write_tlv(&mut ve, TN_COMPONENT_VALUE, nc.as_slice());
        write_tlv(&mut nb, TN_VALUE_EDGE, ve.as_slice());
        proof {
            assert(n.value_edges[k as int] == (e.0@, e.1));
            assert(nc@ =~= seq![0x08u8, (e.0@.len() % 256) as u8] + e.0@);
            lemma_concat_step(fv, k as nat);
            assert(nb@ =~= base + concat_all(Seq::new(k as nat + 1, fv)));
        }
        k = k + 1;
    }
    let ghost base2 = nb@;
    let ghost fp = |k: int| pattern_edge_wire(n.pattern_edges[k]);
    let mut k: usize = 0;
    proof {
        assert(Seq::new(0, fp) =~= Seq::<Seq<u8>>::empty());
        assert(nb@ =~= base2 + concat_all(Seq::new(0, fp)));
    }
    while k < node.pattern_edges.len()
        invariant
            k <= node.pattern_edges@.len(),
            n == node@,
            fp == (|k: int| pattern_edge_wire(n.pattern_edges[k])),
            nb@ == base2 + concat_all(Seq::new(k as nat, fp)),
        decreases node.pattern_edges@.len() - k,
    {
        let e = node.pattern_edges[k];
        let mut pe: Vec<u8> = Vec::new();
        write_uint(&mut pe, TN_NODE_ID, e.0);
        write_uint(&mut pe, TN_PATTERN_TAG, e.1);
        write_tlv(&mut nb, TN_PATTERN_EDGE, pe.as_slice());
        proof {
            lemma_concat_step(fp, k as nat);
            assert(nb@ =~= base2 + concat_all(Seq::new(k as nat + 1, fp)));
        }
        k = k + 1;
    }
    let ghost base3 = nb@;
    let ghost fk = |k: int| uint_tlv(TN_KEY_NODE_ID, n.key_nodes[k]);
    let mut k: usize = 0;
    proof {
        assert(Seq::new(0, fk) =~= Seq::<Seq<u8>>::empty());
        assert(nb@ =~= base3 + concat_all(Seq::new(0, fk)));
    }
    while k < node.key_nodes.len()
        invariant
            k <= node.key_nodes@.len(),
            n == node@,
            fk == (|k: int| uint_tlv(TN_KEY_NODE_ID, n.key_nodes[k])),
            nb@ == base3 + concat_all(Seq::new(k as nat, fk)),
        decreases node.key_nodes@.len() - k,
    {
        write_uint(&mut nb, TN_KEY_NODE_ID, node.key_nodes[k]);
        proof {
            lemma_concat_step(fk, k as nat);
        }
        k = k + 1;
    }
    write_tlv(out, TN_NODE, nb.as_slice());
    proof {
        assert(nb@ =~= uint_tlv(TN_NODE_ID, i) + concat_all(Seq::new(n.value_edges.len(), fv)) + concat_all(
            Seq::new(n.pattern_edges.len(), fp),
        ) + concat_all(Seq::new(n.key_nodes.len(), fk)));
    }
}

/// The binary form of a schema graph.
pub fn emit(graph: &LvsGraph) -> (r: Vec<u8>)
    ensures
        r@ == lvs_wire(nodes_view(graph.nodes@), graph.named_pattern_num, tags_view(graph.tag_symbols@)),
{
    let mut out: Vec<u8> = Vec::new();
    write_uint(&mut out, TN_VERSION, LVS_VERSION);
    write_uint(&mut out, TN_NODE_ID, 0);
    write_uint(&mut out, TN_NAMED_PATTERN_NUM, graph.named_pattern_num);
    let ghost nv = nodes_view(graph.nodes@);
    let ghost base = out@;
    let ghost fnode = |i: int| node_wire(i as u64, nv[i]);
    let mut i: usize = 0;
    proof {
        assert(Seq::new(0, fnode) =~= Seq::<Seq<u8>>::empty());
        assert(out@ =~= base + concat_all(Seq::new(0, fnode)));
    }
    while i < graph.nodes.len()
        invariant
            i <= graph.nodes@.len(),
            nv == nodes_view(graph.nodes@),
            fnode == (|i: int| node_wire(i as u64, nv[i])),
            out@ == base + concat_all(Seq::new(i as nat, fnode)),
        decreases graph.nodes@.len() - i,
    {
        emit_node(&mut out, i as u64, &graph.nodes[i]);
        proof {
            lemma_concat_step(fnode, i as nat);
            assert(out@ =~= base + concat_all(Seq::new(i as nat + 1, fnode)));
        }
        i = i + 1;
    }
    let ghost tv = tags_view(graph.tag_symbols@);
    let ghost base2 = out@;
    let ghost ftag = |i: int| tag_wire(tv[i]);
    let mut i: usize = 0;
    proof {
        assert(Seq::new(0, ftag) =~= Seq::<Seq<u8>>::empty());
        assert(out@ =~= base2 + concat_all(Seq::new(0, ftag)));
    }
    while i < graph.tag_symbols.len()
        invariant
            i <= graph.tag_symbols@.len(),
            tv == tags_view(graph.tag_symbols@),
            ftag == (|i: int| tag_wire(tv[i])),
            out@ == base2 + concat_all(Seq::new(i as nat, ftag)),
        decreases graph.tag_symbols@.len() - i,
    {
        let t = &graph.tag_symbols[i];
        let mut ts: Vec<u8> = Vec::new();
        write_uint(&mut ts, TN_PATTERN_TAG, t.0);
        write_tlv(&mut ts, TN_IDENTIFIER, t.1.as_str().as_bytes());
        write_tlv(&mut out, TN_TAG_SYMBOL, ts.as_slice());
        proof {
            assert(tv[i as int] == (t.0, t.1@));
            lemma_concat_step(ftag, i as nat);
            assert(out@ =~= base2 + concat_all(Seq::new(i as nat + 1, ftag)));
        }
        i = i + 1;
    }
    proof {
        assert(out@ =~= lvs_wire(nv, graph.named_pattern_num, tv));
    }
    out
}

/// The schema graph of an LVS source.
pub fn compile(source: &str) -> (r: Result<LvsGraph, LvsCompileError>)
    requires
        source@.len() < usize::MAX,
    ensures
        match lvs_rules(source@) {
            Err(e) => r matches Err(x) && x@ == e,
            Ok(rules) => match lvs_graph(rules) {
                Ok((n, c, t)) => r matches Ok(g) && nodes_view(g.nodes@) == n && g.named_pattern_num == c && tags_view(
                    g.tag_symbols@,
                ) == t,
                Err(e) => r matches Err(x) && x@ == e,
            },
        },
{
    let rules = match parse(source) {
        Ok(r) => r,
        Err(e) => return Err(e),
    };
    lower(&rules)
}

/// The binary form of an LVS source's schema.
pub fn compile_to_binary(source: &str) -> (r: Result<Vec<u8>, LvsCompileError>)
    requires
        source@.len() < usize::MAX,
    ensures
        match lvs_rules(source@) {
            Err(e) => r matches Err(x) && x@ == e,
            Ok(rules) => match lvs_graph(rules) {
                Ok((n, c, t)) => r matches Ok(b) && b@ == lvs_wire(n, c, t),
                Err(e) => r matches Err(x) && x@ == e,
            },
        },
{
    let graph = match compile(source) {
        Ok(g) => g,
        Err(e) => return Err(e),
    };
    Ok(emit(&graph))
}


/// What compiling a source gives, as plain values: the graph's nodes,
/// named-pattern count and tag symbols, or the error.
pub open spec fn compiled(source: Seq<char>) -> Result<(Seq<NodeView>, u64, Seq<(u64, Seq<char>)>), ErrView> {
    match lvs_rules(source) {
        Err(e) => Err(e),
        Ok(rules) => lvs_graph(rules),
    }
}

/// `compile` and `compile_to_binary` agree: on a source where one succeeds
/// so does the other, the binary is the wire form of the compiled graph,
/// and on failure both report the same error.
pub proof fn lemma_compile_agrees(
    source: Seq<char>,
    g: Result<LvsGraph, LvsCompileError>,
    b: Result<Vec<u8>, LvsCompileError>,
)
    requires
        match compiled(source) {
            Err(e) => g matches Err(x) && x@ == e,
            Ok((n, c, t)) => g matches Ok(gr) && nodes_view(gr.nodes@) == n && gr.named_pattern_num == c && tags_view(
                gr.tag_symbols@,
            ) == t,
        },
        match compiled(source) {
            Err(e) => b matches Err(x) && x@ == e,
            Ok((n, c, t)) => b matches Ok(bb) && bb@ == lvs_wire(n, c, t),
        },
    ensures
        g is Ok <==> b is Ok,
        g matches Err(x) ==> b matches Err(y) && x@ == y@,
        g matches Ok(gr) ==> b matches Ok(bb) && bb@ == lvs_wire(
            nodes_view(gr.nodes@),
            gr.named_pattern_num,
            tags_view(gr.tag_symbols@),
        ),
{
}

} // verus!
