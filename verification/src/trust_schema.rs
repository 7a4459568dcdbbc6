//! Name patterns with capture variables, and trust-schema rules over them.
//!
//! Text format of a pattern: `/`-separated components; `/literal` is a
//! literal, `/<var>` captures one component, `/<**var>` captures all the
//! remaining components (and must be last).

use vstd::prelude::*;

use crate::name::{ComponentView, Name, NameComponent, GENERIC_COMPONENT};
use crate::text::{string_from_static, trimmed, utf8_bytes};

verus! {

/// Why a pattern or rule text cannot be parsed.
#[derive(Debug, Clone, Copy, PartialEq, Eq, Structural)]
pub enum PatternParseError {
    /// The text is empty (or white space).
    Empty,
    /// A capture variable lacks its closing `>`.
    UnclosedCapture,
    /// A `**` capture is not the last component.
    MultiCaptureNotLast,
    /// A rule does not have exactly one `=>` separator.
    BadRuleSeparator,
}

impl PatternParseError {
    /// The message of the error.
    pub fn message(&self) -> (r: &'static str)
        ensures
            r@ == match *self {
                PatternParseError::Empty => "empty pattern string"@,
                PatternParseError::UnclosedCapture => "unclosed capture variable (missing '>')"@,
                PatternParseError::MultiCaptureNotLast => "MultiCapture ('**') must be the last component"@,
                PatternParseError::BadRuleSeparator => "rule must have exactly one '=>' separator"@,
            },
    {
        match self {
            PatternParseError::Empty => "empty pattern string",
            PatternParseError::UnclosedCapture => "unclosed capture variable (missing '>')",
            PatternParseError::MultiCaptureNotLast => "MultiCapture ('**') must be the last component",
            PatternParseError::BadRuleSeparator => "rule must have exactly one '=>' separator",
        }
    }
}

/// One component of a name pattern.
#[derive(Clone, Debug, PartialEq, Eq)]
pub enum PatternComponent {
    /// Must match this exact component.
    Literal(NameComponent),
    /// Binds one component to a named variable.
    Capture(String),
    /// Binds the remaining components (one or more) to a named variable.
    MultiCapture(String),
}

pub enum PatView {
    Literal(ComponentView),
    Capture(Seq<char>),
    MultiCapture(Seq<char>),
}

impl View for PatternComponent {
    type V = PatView;

    open spec fn view(&self) -> PatView {
        match self {
            PatternComponent::Literal(c) => PatView::Literal(c@),
            PatternComponent::Capture(v) => PatView::Capture(v@),
            PatternComponent::MultiCapture(v) => PatView::MultiCapture(v@),
        }
    }
}

/// A name pattern with named capture groups.
#[derive(Clone, Debug, PartialEq, Eq)]
pub struct NamePattern(pub Vec<PatternComponent>);

impl View for NamePattern {
    type V = Seq<PatView>;

    open spec fn view(&self) -> Seq<PatView> {
        self.0@.map_values(|c: PatternComponent| c@)
    }
}

/// Variable bindings made while matching, in the order they were made.
pub type Bindings = Vec<(String, NameComponent)>;

pub open spec fn bindings_view(b: Seq<(String, NameComponent)>) -> Seq<(Seq<char>, ComponentView)> {
    b.map_values(|e: (String, NameComponent)| (e.0@, e.1@))
}

/// The component bound to `var`, if any.
pub open spec fn lookup(b: Seq<(Seq<char>, ComponentView)>, var: Seq<char>) -> Option<ComponentView>
    decreases b.len(),
{
    if b.len() == 0 {
        None
    } else if b[0].0 == var {
        Some(b[0].1)
    } else {
        lookup(b.drop_first(), var)
    }
}

/// Match `name[idx..]` against `pat`, extending the bindings `b`: whether it
/// matched, and the bindings made up to where matching stopped.
pub open spec fn match_run(pat: Seq<PatView>, name: Seq<ComponentView>, idx: int, b: Seq<(Seq<char>, ComponentView)>) -> (bool, Seq<(Seq<char>, ComponentView)>)
    decreases pat.len(),
{
    if pat.len() == 0 {
        (idx == name.len(), b)
    } else {
        match pat[0] {
            PatView::Literal(c) => if idx >= name.len() || name[idx] != c {
                (false, b)
            } else {
                match_run(pat.drop_first(), name, idx + 1, b)
            },
            PatView::Capture(v) => if idx >= name.len() {
                (false, b)
            } else {
                match lookup(b, v) {
                    Some(e) => if e != name[idx] {
                        (false, b)
                    } else {
                        match_run(pat.drop_first(), name, idx + 1, b)
                    },
                    None => match_run(pat.drop_first(), name, idx + 1, b.push((v, name[idx]))),
                }
            },
            PatView::MultiCapture(_) => match_run(pat.drop_first(), name, name.len() as int, b),
        }
    }
}

/// Position of the first `/` in `u`, or its length.
pub open spec fn first_slash(u: Seq<char>) -> nat
    decreases u.len(),
{
    if u.len() == 0 {
        0
    } else if u[0] == '/' {
        0
    } else {
        1 + first_slash(u.drop_first())
    }
}

/// The first `/` of a text is within it, and none comes before it.
pub proof fn lemma_first_slash(u: Seq<char>)
    ensures
        first_slash(u) <= u.len(),
        first_slash(u) < u.len() ==> u[first_slash(u) as int] == '/',
        forall|i: int| 0 <= i < first_slash(u) ==> u[i] != '/',
    decreases u.len(),
{
    if u.len() > 0 && u[0] != '/' {
        lemma_first_slash(u.drop_first());
        assert forall|i: int| 0 <= i < first_slash(u) implies u[i] != '/' by {
            if i > 0 {
                assert(u[i] == u.drop_first()[i - 1]);
            }
        }
    }
}

/// The pattern component a `/`-free segment of the text stands for; `last`
/// says whether it is the last segment.
pub open spec fn segment_view(part: Seq<char>, last: bool) -> Result<PatView, PatternParseError> {
    if part.len() > 0 && part[0] == '<' {
        if part.len() >= 2 && part.last() == '>' {
            let var = part.subrange(1, part.len() - 1);
            if var.len() >= 2 && var[0] == '*' && var[1] == '*' {
                if !last {
                    Err(PatternParseError::MultiCaptureNotLast)
                } else {
                    Ok(PatView::MultiCapture(var.skip(2)))
                }
            } else {
                Ok(PatView::Capture(var))
            }
        } else {
            Err(PatternParseError::UnclosedCapture)
        }
    } else {
        Ok(PatView::Literal((GENERIC_COMPONENT, utf8_bytes(part))))
    }
}

/// `v` in front of a successful result.
pub open spec fn prepend_ok(v: Seq<PatView>, r: Result<Seq<PatView>, PatternParseError>) -> Result<Seq<PatView>, PatternParseError> {
    match r {
        Ok(x) => Ok(v + x),
        Err(e) => Err(e),
    }
}

/// The components of the `/`-separated segments of `u`.
pub open spec fn parse_segments(u: Seq<char>) -> Result<Seq<PatView>, PatternParseError>
    decreases u.len(),
{
    let k = first_slash(u);
    let last = k >= u.len();
    match segment_view(u.take(k as int), last) {
        Err(e) => Err(e),
        Ok(c) => if last {
            Ok(seq![c])
        } else {
            proof {
                lemma_first_slash(u);
            }
            prepend_ok(seq![c], parse_segments(u.skip(k as int + 1)))
        },
    }
}

/// The pattern a text stands for.
pub open spec fn pattern_parse(s: Seq<char>) -> Result<Seq<PatView>, PatternParseError> {
    let t = trimmed(s);
    if t.len() == 0 {
        Err(PatternParseError::Empty)
    } else {
        let u = if t[0] == '/' {
            t.skip(1)
        } else {
            t
        };
        if u.len() == 0 {
            Ok(Seq::empty())
        } else {
            parse_segments(u)
        }
    }
}

proof fn lemma_prepend_assoc(a: Seq<PatView>, b: Seq<PatView>, r: Result<Seq<PatView>, PatternParseError>)
    ensures
        prepend_ok(a, prepend_ok(b, r)) == prepend_ok(a + b, r),
{
    if let Ok(x) = r {
        assert(a + (b + x) =~= (a + b) + x);
    }
}

/// The component for the segment `t[from..to]`.
fn segment(t: &str, from: usize, to: usize, last: bool) -> (r: Result<PatternComponent, PatternParseError>)
    requires
        from <= to <= t@.len(),
    ensures
        match segment_view(t@.subrange(from as int, to as int), last) {
            Ok(v) => r matches Ok(c) && c@ == v,
            Err(e) => r == Err::<PatternComponent, PatternParseError>(e),
        },
{
    let ghost part = t@.subrange(from as int, to as int);
    if to > from && t.get_char(from) == '<' {
        if to - from >= 2 && t.get_char(to - 1) == '>' {
            proof {
                assert(part.last() == t@[to - 1]);
            }
            let ghost var = part.subrange(1, part.len() - 1);
            proof {
                assert(var =~= t@.subrange(from + 1, to - 1));
            }
            if to - from >= 4 && t.get_char(from + 1) == '*' && t.get_char(from + 2) == '*' {
                if !last {
                    return Err(PatternParseError::MultiCaptureNotLast);
                }
                let v = t.substring_char(from + 3, to - 1);
                proof {
                    assert(v@ =~= var.skip(2));
                }
                Ok(PatternComponent::MultiCapture(string_from_static(v)))
            } else {
                proof {
                    if var.len() >= 2 {
                        assert(var[0] == t@[from + 1]);
                        assert(var[1] == t@[from + 2]);
                    }
                }
                let v = t.substring_char(from + 1, to - 1);
                Ok(PatternComponent::Capture(string_from_static(v)))
            }
        } else {
            proof {
                if part.len() >= 2 {
                    assert(part.last() == t@[to - 1]);
                }
            }
            Err(PatternParseError::UnclosedCapture)
        }
    } else {
        let p = t.substring_char(from, to);
        let b = p.as_bytes();
        let v = crate::tlv::slice_to_vec(b, 0, b.len());
        proof {
            assert(b@.subrange(0, b@.len() as int) =~= b@);
        }
        Ok(PatternComponent::Literal(NameComponent::generic(v)))
    }
}

impl PatternComponent {
    /// A copy of this component.
    pub fn copy(&self) -> (r: PatternComponent)
        ensures
            r@ == self@,
    {
        match self {
            PatternComponent::Literal(c) => PatternComponent::Literal(c.copy()),
            PatternComponent::Capture(v) => PatternComponent::Capture(v.clone()),
            PatternComponent::MultiCapture(v) => PatternComponent::MultiCapture(v.clone()),
        }
    }
}

impl NamePattern {
    /// A copy of this pattern.
    pub fn copy(&self) -> (r: NamePattern)
        ensures
            r@ == self@,
    {
        let mut out: Vec<PatternComponent> = Vec::new();
        let mut i: usize = 0;
        while i < self.0.len()
            invariant
                i <= self.0@.len(),
                out@.len() == i,
                forall|j: int| 0 <= j < i ==> #[trigger] out@[j]@ == self.0@[j]@,
            decreases self.0@.len() - i,
        {
            out.push(self.0[i].copy());
            i = i + 1;
        }
        let r = NamePattern(out);
        proof {
            assert(r@ =~= self@);
        }
        r
    }

    /// Parse a pattern from its text.
    pub fn parse(s: &str) -> (r: Result<NamePattern, PatternParseError>)
        ensures
            match pattern_parse(s@) {
                Ok(p) => r matches Ok(np) && np@ == p,
                Err(e) => r == Err::<NamePattern, PatternParseError>(e),
            },
    {
        let t = crate::text::trim_text(s);
        let n = t.unicode_len();
        if n == 0 {
            return Err(PatternParseError::Empty);
        }
        let start: usize = if t.get_char(0) == '/' {
            1
        } else {
            0
        };
        let ghost u = if t@[0] == '/' {
            t@.skip(1)
        } else {
            t@
        };
        proof {
            assert(u =~= t@.skip(start as int));
        }
        if start == n {
            return Ok(NamePattern(Vec::new()));
        }
        proof {
            assert(pattern_parse(s@) == parse_segments(u));
            assert(prepend_ok(Seq::<PatView>::empty(), parse_segments(u)) == parse_segments(u)) by {
                if let Ok(x) = parse_segments(u) {
                    assert(Seq::<PatView>::empty() + x =~= x);
                }
            }
        }
        let mut comps: Vec<PatternComponent> = Vec::new();
        let mut pos: usize = start;
        loop
            invariant
                start <= pos <= n,
                n == t@.len(),
                pattern_parse(s@) == parse_segments(u),
                u == t@.skip(start as int),
                u.len() > 0,
                parse_segments(u) == prepend_ok(comps@.map_values(|c: PatternComponent| c@), parse_segments(t@.skip(pos as int))),
            decreases n - pos,
        {
            let ghost w = t@.skip(pos as int);
            let mut end: usize = pos;
            while end < n && t.get_char(end) != '/'
                invariant
                    pos <= end <= n,
                    n == t@.len(),
                    forall|k: int| pos <= k < end ==> t@[k] != '/',
                decreases n - end,
            {
                end = end + 1;
            }
            proof {
                lemma_first_slash(w);
                let k = first_slash(w);
                if (k as int) < end - pos {
                    assert(w[k as int] == t@[pos + k]);
                }
                if end < n {
                    assert(w[end - pos] == t@[end as int]);
                    if (k as int) > end - pos {
                        assert(w[end - pos] != '/');
                    }
                }
                assert(k == end - pos);
                assert(w.take(k as int) =~= t@.subrange(pos as int, end as int));
            }
            let last = end == n;
            proof {
                assert(w.len() == n - pos);
                assert(last == (first_slash(w) >= w.len()));
            }
            let c = match segment(t, pos, end, last) {
                Ok(c) => c,
                Err(e) => {
                    proof {
                        assert(parse_segments(w) == Err::<Seq<PatView>, PatternParseError>(e));
                    }
                    return Err(e);
                },
            };
            let ghost before = comps@.map_values(|c: PatternComponent| c@);
            let ghost cv = c@;
            comps.push(c);
            proof {
                assert(comps@.map_values(|c: PatternComponent| c@) =~= before + seq![cv]);
            }
            if last {
                proof {
                    assert(parse_segments(w) == Ok::<Seq<PatView>, PatternParseError>(seq![cv]));
                }
                let r = NamePattern(comps);
                proof {
                    assert(r@ =~= before + seq![cv]);
                }
                return Ok(r);
            }
            proof {
                assert(w.skip(end - pos + 1) =~= t@.skip(end + 1));
                assert(parse_segments(w) == prepend_ok(seq![cv], parse_segments(t@.skip(end + 1))));
                lemma_prepend_assoc(before, seq![cv], parse_segments(t@.skip(end + 1)));
            }
            pos = end + 1;
        }
    }

    /// Match `name` against this pattern, extending `bindings`; a variable
    /// already bound must bind the same component again.
    pub fn matches(&self, name: &Name, bindings: &mut Bindings) -> (r: bool)
        ensures
            (r, bindings_view(final(bindings)@)) == match_run(self@, name@, 0, bindings_view(old(bindings)@)),
    {
        let ghost b0 = bindings_view(bindings@);
        let n = name.components.len();
        let mut idx: usize = 0;
        let mut pi: usize = 0;
        proof {
            assert(self@.skip(0) =~= self@);
        }
        while pi < self.0.len()
            invariant
                pi <= self@.len(),
                self@.len() == self.0@.len(),
                n == name@.len(),
                idx <= n,
                b0 == bindings_view(old(bindings)@),
                match_run(self@, name@, 0, b0) == match_run(self@.skip(pi as int), name@, idx as int, bindings_view(bindings@)),
            decreases self@.len() - pi,
        {
            let ghost rest = self@.skip(pi as int);
            proof {
                assert(rest[0] == self.0@[pi as int]@);
                assert(rest.drop_first() =~= self@.skip(pi + 1));
            }
            match &self.0[pi] {
                PatternComponent::Literal(c) => {
                    if idx >= n || !name.components[idx].same_as(c) {
                        proof {
                            if idx < n {
                                assert(name@[idx as int] == name.components@[idx as int]@);
                            }
                            assert(match_run(rest, name@, idx as int, bindings_view(bindings@)) == (false, bindings_view(bindings@)));
                        }
                        return false;
                    }
                    proof {
                        assert(name@[idx as int] == name.components@[idx as int]@);
                    }
                    idx = idx + 1;
                },
                PatternComponent::Capture(var) => {
                    if idx >= n {
                        proof {
                            assert(match_run(rest, name@, idx as int, bindings_view(bindings@)) == (false, bindings_view(bindings@)));
                        }
                        return false;
                    }
                    let comp = name.components[idx].copy();
                    proof {
                        assert(name@[idx as int] == name.components@[idx as int]@);
                    }
                    match find_binding(bindings, var.as_str()) {
                        Some(k) => {
                            if !bindings[k].1.same_as(&comp) {
                                proof {
                                    assert(match_run(rest, name@, idx as int, bindings_view(bindings@)) == (false, bindings_view(bindings@)));
                                }
                                return false;
                            }
                        },
                        None => {
                            let ghost bv = bindings_view(bindings@);
                            bindings.push((var.clone(), comp));
                            proof {
                                assert(bindings_view(bindings@) =~= bv.push((var@, name@[idx as int])));
                            }
                        },
                    }
                    idx = idx + 1;
                },
                PatternComponent::MultiCapture(_) => {
                    idx = n;
                },
            }
            pi = pi + 1;
        }
        proof {
            assert(self@.skip(pi as int) =~= Seq::<PatView>::empty());
        }
        idx == n
    }
}

/// The text of one pattern component (a literal shown as lossy UTF-8).
pub open spec fn component_text(c: PatView) -> Seq<char> {
    match c {
        PatView::Literal(v) => "/"@ + crate::text::lossy_utf8(v.1),
        PatView::Capture(var) => "/<"@ + var + ">"@,
        PatView::MultiCapture(var) => "/<**"@ + var + ">"@,
    }
}

/// The text of the components of a pattern, one after another.
pub open spec fn pattern_text(p: Seq<PatView>) -> Seq<char>
    decreases p.len(),
{
    if p.len() == 0 {
        Seq::empty()
    } else {
        pattern_text(p.drop_last()) + component_text(p.last())
    }
}

/// The text form of a pattern: `/` for the empty pattern.
pub open spec fn pattern_shown(p: Seq<PatView>) -> Seq<char> {
    if p.len() == 0 {
        "/"@
    } else {
        pattern_text(p)
    }
}

impl NamePattern {
    /// The text form of the pattern (literals shown as UTF-8, invalid bytes
    /// replaced).
    pub fn to_text(&self) -> (r: String)
        ensures
            r@ == pattern_shown(self@),
    {
        if self.0.len() == 0 {
            return string_from_static("/");
        }
        let mut out = String::new();
        let ghost v = self@;
        let mut i: usize = 0;
        proof {
            assert(out@ =~= Seq::<char>::empty());
            assert(v.take(0) =~= Seq::<PatView>::empty());
        }
        while i < self.0.len()
            invariant
                i <= self.0@.len(),
                v == self@,
                out@ == pattern_text(v.take(i as int)),
            decreases self.0@.len() - i,
        {
            let ghost before = out@;
            match &self.0[i] {
                PatternComponent::Literal(c) => {
                    crate::text::push_text(&mut out, "/");
                    let t = crate::text::utf8_lossy(c.value.as_slice());
                    crate::text::push_text(&mut out, t.as_str());
                },
                PatternComponent::Capture(var) => {
                    crate::text::push_text(&mut out, "/<");
                    crate::text::push_text(&mut out, var.as_str());
                    crate::text::push_text(&mut out, ">");
                },
                PatternComponent::MultiCapture(var) => {
                    crate::text::push_text(&mut out, "/<**");
                    crate::text::push_text(&mut out, var.as_str());
                    crate::text::push_text(&mut out, ">");
                },
            }
            proof {
                assert(v.take(i + 1).drop_last() =~= v.take(i as int));
                assert(v.take(i + 1).last() == self.0@[i as int]@);
                assert(v[i as int] == self.0@[i as int]@);
                assert(out@ =~= before + component_text(self.0@[i as int]@));
            }
            i = i + 1;
        }
        proof {
            assert(v.take(i as int) =~= v);
        }
        out
    }
}

impl SchemaRule {
    /// `"<data_pattern> => <key_pattern>"`.
    pub fn to_text(&self) -> (r: String)
        ensures
            r@ == rule_text(pattern_shown(self.data_pattern@), pattern_shown(self.key_pattern@)),
    {
        let mut out = self.data_pattern.to_text();
        let ghost a = out@;
        let k = self.key_pattern.to_text();
        crate::text::push_text(&mut out, " => ");
        crate::text::push_text(&mut out, k.as_str());
        proof {
            assert(out@ == rule_text(a, k@));
        }
        out
    }
}

/// The text of a rule from the texts of its patterns.
pub open spec fn rule_text(a: Seq<char>, b: Seq<char>) -> Seq<char> {
    a + " => "@ + b
}

/// Position of the first binding of `var`.
fn find_binding(b: &Bindings, var: &str) -> (r: Option<usize>)
    ensures
        match lookup(bindings_view(b@), var@) {
            None => r is None,
            Some(c) => r matches Some(k) && k < b@.len() && b@[k as int].1@ == c,
        },
{
    let ghost v = bindings_view(b@);
    let mut i: usize = 0;
    proof {
        assert(v.skip(0) =~= v);
    }
    while i < b.len()
        invariant
            i <= b@.len(),
            v == bindings_view(b@),
            lookup(v, var@) == lookup(v.skip(i as int), var@),
        decreases b@.len() - i,
    {
        proof {
            assert(v.skip(i as int)[0] == (b@[i as int].0@, b@[i as int].1@));
            assert(v.skip(i as int).drop_first() =~= v.skip(i + 1));
        }
        if crate::text::str_eq(b[i].0.as_str(), var) {
            return Some(i);
        }
        i = i + 1;
    }
    None
}

/// Data matching `data_pattern` must be signed by a key matching
/// `key_pattern`; captured variables must agree across both. Written
/// `"<data_pattern> => <key_pattern>"`.
#[derive(Clone, Debug, PartialEq, Eq)]
pub struct SchemaRule {
    pub data_pattern: NamePattern,
    pub key_pattern: NamePattern,
}

/// Position of the first `=>` in `s`, if any.
pub open spec fn first_arrow(s: Seq<char>) -> Option<int>
    decreases s.len(),
{
    if s.len() < 2 {
        None
    } else if s[0] == '=' && s[1] == '>' {
        Some(0)
    } else {
        match first_arrow(s.drop_first()) {
            Some(i) => Some(i + 1),
            None => None,
        }
    }
}

proof fn lemma_first_arrow(s: Seq<char>)
    ensures
        first_arrow(s) matches Some(i) ==> 0 <= i && i + 2 <= s.len() && s[i] == '=' && s[i + 1] == '>',
    decreases s.len(),
{
    if s.len() >= 2 && !(s[0] == '=' && s[1] == '>') {
        lemma_first_arrow(s.drop_first());
    }
}

/// The rule a text stands for: the text is split at its first `=>`.
pub open spec fn rule_parse(s: Seq<char>) -> Result<(Seq<PatView>, Seq<PatView>), PatternParseError> {
    match first_arrow(s) {
        None => Err(PatternParseError::BadRuleSeparator),
        Some(i) => match pattern_parse(trimmed(s.take(i))) {
            Err(e) => Err(e),
            Ok(d) => match pattern_parse(trimmed(s.skip(i + 2))) {
                Err(e) => Err(e),
                Ok(k) => Ok((d, k)),
            },
        },
    }
}

/// Position of the first `=>` in `s`.
fn find_arrow(s: &str) -> (r: Option<usize>)
    ensures
        match first_arrow(s@) {
            None => r is None,
            Some(i) => r matches Some(k) && k == i,
        },
{
    let n = s.unicode_len();
    if n < 2 {
        return None;
    }
    let ghost v = s@;
    let mut i: usize = 0;
    proof {
        assert(v.skip(0) =~= v);
    }
    while i + 1 < n
        invariant
            n == s@.len(),
            n >= 2,
            i + 1 <= n,
            v == s@,
            first_arrow(v) == match first_arrow(v.skip(i as int)) {
                Some(j) => Some(j + i),
                None => None,
            },
        decreases n - i,
    {
        let ghost w = v.skip(i as int);
        proof {
            assert(w[0] == s@[i as int]);
            assert(w[1] == s@[i + 1]);
            assert(w.drop_first() =~= v.skip(i + 1));
        }
        if s.get_char(i) == '=' && s.get_char(i + 1) == '>' {
            return Some(i);
        }
        i = i + 1;
    }
    proof {
        assert(v.skip(i as int).len() < 2);
    }
    None
}

impl SchemaRule {
    pub fn parse(s: &str) -> (r: Result<SchemaRule, PatternParseError>)
        ensures
            match rule_parse(s@) {
                Ok((d, k)) => r matches Ok(rule) && rule.data_pattern@ == d && rule.key_pattern@ == k,
                Err(e) => r == Err::<SchemaRule, PatternParseError>(e),
            },
    {
        let n = s.unicode_len();
        let ghost v = s@;
        let i = match find_arrow(s) {
            Some(i) => i,
            None => return Err(PatternParseError::BadRuleSeparator),
        };
        proof {
            lemma_first_arrow(v);
        }
        let left = s.substring_char(0, i);
        let right = s.substring_char(i + 2, n);
        proof {
            assert(left@ =~= v.take(i as int));
            assert(right@ =~= v.skip(i + 2));
        }
        let data_pattern = match NamePattern::parse(crate::text::trim_text(left)) {
            Ok(p) => p,
            Err(e) => return Err(e),
        };
        let key_pattern = match NamePattern::parse(crate::text::trim_text(right)) {
            Ok(p) => p,
            Err(e) => return Err(e),
        };
        Ok(SchemaRule { data_pattern, key_pattern })
    }

    /// The data name matches the data pattern and the key name the key
    /// pattern, with the variables bound by the first holding in the second.
    pub fn check(&self, data_name: &Name, key_name: &Name) -> (r: bool)
        ensures
            r == rule_allows(self.data_pattern@, self.key_pattern@, data_name@, key_name@),
    {
        let mut bindings: Bindings = Vec::new();
        proof {
            assert(bindings_view(bindings@) =~= Seq::<(Seq<char>, ComponentView)>::empty());
        }
        if !self.data_pattern.matches(data_name, &mut bindings) {
            return false;
        }
        self.key_pattern.matches(key_name, &mut bindings)
    }
}

/// Whether a rule lets `key` sign `data`.
pub open spec fn rule_allows(dp: Seq<PatView>, kp: Seq<PatView>, data: Seq<ComponentView>, key: Seq<ComponentView>) -> bool {
    let d = match_run(dp, data, 0, Seq::empty());
    d.0 && match_run(kp, key, 0, d.1).0
}

/// The rule views of a rule list.
pub open spec fn rules_view(rules: Seq<SchemaRule>) -> Seq<(Seq<PatView>, Seq<PatView>)> {
    rules.map_values(|r: SchemaRule| (r.data_pattern@, r.key_pattern@))
}

/// Trust-schema rules: a packet is allowed when some rule lets its key sign
/// its name.
#[derive(Clone, Debug, PartialEq, Eq, Default)]
pub struct TrustSchema {
    pub rules: Vec<SchemaRule>,
}

/// Whether some rule lets `key` sign `data`.
pub open spec fn schema_allows(rules: Seq<(Seq<PatView>, Seq<PatView>)>, data: Seq<ComponentView>, key: Seq<ComponentView>) -> bool {
    exists|i: int| 0 <= i < rules.len() && #[trigger] rule_allows(rules[i].0, rules[i].1, data, key)
}

impl TrustSchema {
    /// No rules: everything is rejected.
    pub fn new() -> (r: TrustSchema)
        ensures
            r.rules@.len() == 0,
    {
        TrustSchema { rules: Vec::new() }
    }

    pub fn add_rule(&mut self, rule: SchemaRule)
        ensures
            final(self).rules@ == old(self).rules@.push(rule),
    {
        self.rules.push(rule);
    }

    /// Whether some rule lets `key_name` sign `data_name`.
    pub fn allows(&self, data_name: &Name, key_name: &Name) -> (r: bool)
        ensures
            r == schema_allows(rules_view(self.rules@), data_name@, key_name@),
    {
        let ghost rv = rules_view(self.rules@);
        let mut i: usize = 0;
        while i < self.rules.len()
            invariant
                i <= self.rules@.len(),
                rv == rules_view(self.rules@),
                forall|j: int| 0 <= j < i ==> !#[trigger] rule_allows(rv[j].0, rv[j].1, data_name@, key_name@),
            decreases self.rules@.len() - i,
        {
            if self.rules[i].check(data_name, key_name) {
                proof {
                    assert(rule_allows(rv[i as int].0, rv[i as int].1, data_name@, key_name@));
                }
                return true;
            }
            i = i + 1;
        }
        false
    }

    /// The rules.
    pub fn rules(&self) -> (r: &[SchemaRule])
        ensures
            r@ == self.rules@,
    {
        self.rules.as_slice()
    }

    /// Remove the rule at `index`.
    pub fn remove_rule(&mut self, index: usize) -> (r: SchemaRule)
        requires
            index < old(self).rules@.len(),
        ensures
            r == old(self).rules@[index as int],
            final(self).rules@ == old(self).rules@.remove(index as int),
    {
        self.rules.remove(index)
    }

    /// Reset to reject-all.
    pub fn clear(&mut self)
        ensures
            final(self).rules@.len() == 0,
    {
        self.rules.clear();
    }

    /// A copy of this schema, rule by rule.
    pub fn copy(&self) -> (r: TrustSchema)
        ensures
            rules_view(r.rules@) == rules_view(self.rules@),
    {
        let mut rules: Vec<SchemaRule> = Vec::new();
        let mut i: usize = 0;
        while i < self.rules.len()
            invariant
                i <= self.rules@.len(),
                rules_view(rules@) == rules_view(self.rules@.take(i as int)),
            decreases self.rules@.len() - i,
        {
            let rule = &self.rules[i];
            let ghost before = rules@;
            rules.push(SchemaRule { data_pattern: rule.data_pattern.copy(), key_pattern: rule.key_pattern.copy() });
            proof {
                assert(self.rules@.take(i + 1) =~= self.rules@.take(i as int).push(self.rules@[i as int]));
                assert(rules_view(rules@) =~= rules_view(before).push((rule.data_pattern@, rule.key_pattern@)));
                assert(rules_view(self.rules@.take(i + 1)) =~= rules_view(self.rules@.take(i as int)).push(
                    (rule.data_pattern@, rule.key_pattern@),
                ));
            }
            i = i + 1;
        }
        proof {
            assert(self.rules@.take(i as int) =~= self.rules@);
        }
        TrustSchema { rules }
    }

    /// Accept any signed packet regardless of how the names relate.
    pub fn accept_all() -> (r: TrustSchema)
        ensures
            r.rules@.len() == 1,
            r.rules@[0].data_pattern@ == seq![PatView::MultiCapture("_"@)],
            r.rules@[0].key_pattern@ == seq![PatView::MultiCapture("_"@)],
    {
        let mut schema = TrustSchema::new();
        let d = NamePattern(vec![PatternComponent::MultiCapture(string_from_static("_"))]);
        let k = NamePattern(vec![PatternComponent::MultiCapture(string_from_static("_"))]);
        proof {
            assert(d@ =~= seq![PatView::MultiCapture("_"@)]);
            assert(k@ =~= seq![PatView::MultiCapture("_"@)]);
        }
        schema.add_rule(SchemaRule { data_pattern: d, key_pattern: k });
        schema
    }

    /// Data and key must share their first component.
    pub fn hierarchical() -> (r: TrustSchema)
        ensures
            r.rules@.len() == 1,
            r.rules@[0].data_pattern@ == seq![PatView::Capture("org"@), PatView::MultiCapture("_data"@)],
            r.rules@[0].key_pattern@ == seq![PatView::Capture("org"@), PatView::MultiCapture("_key"@)],
    {
        let mut schema = TrustSchema::new();
        let d = NamePattern(
            vec![PatternComponent::Capture(string_from_static("org")), PatternComponent::MultiCapture(string_from_static("_data"))],
        );
        let k = NamePattern(
            vec![PatternComponent::Capture(string_from_static("org")), PatternComponent::MultiCapture(string_from_static("_key"))],
        );
        proof {
            assert(d@ =~= seq![PatView::Capture("org"@), PatView::MultiCapture("_data"@)]);
            assert(k@ =~= seq![PatView::Capture("org"@), PatView::MultiCapture("_key"@)]);
        }
        schema.add_rule(SchemaRule { data_pattern: d, key_pattern: k });
        schema
    }
}

/// The pattern that matches a prefix and every name under it.
pub fn pattern_under(prefix: &Name) -> (r: NamePattern)
    ensures
        r@ == prefix@.map_values(|c: ComponentView| PatView::Literal(c)).push(PatView::MultiCapture("_"@)),
{
    let mut comps: Vec<PatternComponent> = Vec::new();
    let mut i: usize = 0;
    while i < prefix.components.len()
        invariant
            i <= prefix@.len(),
            prefix@.len() == prefix.components@.len(),
            comps@.map_values(|c: PatternComponent| c@) =~= prefix@.take(i as int).map_values(|c: ComponentView| PatView::Literal(c)),
        decreases prefix@.len() - i,
    {
        let ghost before = comps@.map_values(|c: PatternComponent| c@);
        let c = prefix.components[i].copy();
        comps.push(PatternComponent::Literal(c));
        proof {
            assert(comps@.map_values(|c: PatternComponent| c@) =~= before.push(PatView::Literal(prefix@[i as int])));
            assert(prefix@.take(i + 1) =~= prefix@.take(i as int).push(prefix@[i as int]));
        }
        i = i + 1;
    }
    let ghost before = comps@.map_values(|c: PatternComponent| c@);
    comps.push(PatternComponent::MultiCapture(string_from_static("_")));
    proof {
        assert(prefix@.take(i as int) =~= prefix@);
        assert(comps@.map_values(|c: PatternComponent| c@) =~= before.push(PatView::MultiCapture("_"@)));
    }
    NamePattern(comps)
}

/// A name under `prefix` matches the pattern of names under it, and the
/// prefix itself does too.
pub proof fn lemma_pattern_under(prefix: Seq<ComponentView>, name: Seq<ComponentView>, b: Seq<(Seq<char>, ComponentView)>)
    requires
        crate::name::spec_has_prefix(name, prefix),
    ensures
        match_run(prefix.map_values(|c: ComponentView| PatView::Literal(c)).push(PatView::MultiCapture("_"@)), name, 0, b).0,
{
    lemma_literals_then_rest(prefix, name, 0, b);
    let pat = prefix.map_values(|c: ComponentView| PatView::Literal(c)).push(PatView::MultiCapture("_"@));
    assert(pat.skip(0) =~= pat);
}

proof fn lemma_literals_then_rest(prefix: Seq<ComponentView>, name: Seq<ComponentView>, k: int, b: Seq<(Seq<char>, ComponentView)>)
    requires
        0 <= k <= prefix.len(),
        crate::name::spec_has_prefix(name, prefix),
    ensures
        match_run(prefix.map_values(|c: ComponentView| PatView::Literal(c)).push(PatView::MultiCapture("_"@)).skip(k), name, k, b).0,
    decreases prefix.len() - k,
{
    let pat = prefix.map_values(|c: ComponentView| PatView::Literal(c)).push(PatView::MultiCapture("_"@));
    let p = pat.skip(k);
    if k == prefix.len() {
        assert(p[0] == pat[k]);
        assert(p[0] == PatView::MultiCapture("_"@));
        assert(p.drop_first().len() == 0);
        assert(match_run(p.drop_first(), name, name.len() as int, b).0);
    } else {
        assert(p[0] == pat[k]);
        assert(pat[k] == PatView::Literal(prefix[k]));
        assert(name[k] == name.subrange(0, prefix.len() as int)[k]);
        assert(p.drop_first() =~= pat.skip(k + 1));
        lemma_literals_then_rest(prefix, name, k + 1, b);
    }
}

} // verus!
