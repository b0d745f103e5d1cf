//! The template engine: parsing `{name}` field-substitution templates and
//! rendering them against a context of named values.
//!
//! Grammar: `{name}` is a field reference, `{{` and `}}` are literal braces,
//! and any other brace use (unmatched brace, empty name, a brace inside a
//! name) is a parse error.

use vstd::prelude::*;
use crate::pattern::{regex_escape, regex_escaped, regex_compiles, CompiledPattern};
use crate::strutil::{chars_of, str_eq, string_of_chars, vec_contains_str};

verus! {

/// First-match lookup in an association list of named values: the value of
/// the earliest entry whose key is `k`.
pub open spec fn ctx_lookup(ctx: Seq<(Seq<char>, Seq<char>)>, k: Seq<char>) -> Option<Seq<char>>
    decreases ctx.len(),
{
    if ctx.len() == 0 {
        None
    } else if ctx[0].0 == k {
        Some(ctx[0].1)
    } else {
        ctx_lookup(ctx.drop_first(), k)
    }
}

/// First-match lookup in an association list, proved against [`ctx_lookup`].
pub fn ctx_get<'a>(ctx: &'a Vec<(String, String)>, k: &str) -> (r: Option<&'a String>)
    ensures
        r matches Some(v) ==> ctx_lookup(ctx.deep_view(), k@) == Some(v@),
        r is None ==> ctx_lookup(ctx.deep_view(), k@) is None,
{
    let ghost cv = ctx.deep_view();
    let mut i: usize = 0;
    proof {
        assert(cv.skip(0) =~= cv);
    }
    while i < ctx.len()
        invariant
            cv == ctx.deep_view(),
            i <= ctx@.len(),
            cv.len() == ctx@.len(),
            ctx_lookup(cv, k@) == ctx_lookup(cv.skip(i as int), k@),
        decreases ctx@.len() - i,
    {
        proof {
            assert(cv.skip(i as int)[0] == cv[i as int]);
        }
        if str_eq(ctx[i].0.as_str(), k) {
            return Some(&ctx[i].1);
        }
        proof {
            assert(cv.skip(i as int).drop_first() =~= cv.skip(i + 1));
        }
        i += 1;
    }
    proof {
        assert(cv.skip(i as int) =~= Seq::<(Seq<char>, Seq<char>)>::empty());
    }
    None
}

/// Spec-level image of one template segment.
pub enum SegmentView {
    Literal(Seq<char>),
    Field(Seq<char>),
}

/// One parsed template segment: literal text, or a reference to a named
/// field.
#[derive(Debug, Clone)]
pub enum Segment {
    Literal(String),
    Field(String),
}

impl View for Segment {
    type V = SegmentView;

    open spec fn view(&self) -> SegmentView {
        match self {
            Segment::Literal(t) => SegmentView::Literal(t@),
            Segment::Field(n) => SegmentView::Field(n@),
        }
    }
}

impl DeepView for Segment {
    type V = SegmentView;

    open spec fn deep_view(&self) -> SegmentView {
        self.view()
    }
}

/// The index of the first `'}'` in `s`.
pub open spec fn find_close(s: Seq<char>) -> Option<int>
    decreases s.len(),
{
    if s.len() == 0 {
        None
    } else if s[0] == '}' {
        Some(0)
    } else {
        match find_close(s.drop_first()) {
            Some(i) => Some(i + 1),
            None => None,
        }
    }
}

/// Prepends a segment to a parse result, keeping a failure a failure.
pub open spec fn seg_cons(h: SegmentView, rest: Option<Seq<SegmentView>>) -> Option<
    Seq<SegmentView>,
> {
    match rest {
        Some(r) => Some(seq![h] + r),
        None => None,
    }
}

/// The template grammar: the segments of `s`, or `None` when `s` is
/// malformed.
pub open spec fn parse_segments(s: Seq<char>) -> Option<Seq<SegmentView>>
    decreases s.len(),
{
    if s.len() == 0 {
        Some(Seq::empty())
    } else if s[0] == '{' {
        if s.len() >= 2 && s[1] == '{' {
            seg_cons(SegmentView::Literal(seq!['{']), parse_segments(s.skip(2)))
        } else {
            match find_close(s) {
                Some(j) => if 1 < j < s.len() && (forall|t: int| 1 <= t < j ==> s[t] != '{') {
                    seg_cons(
                        SegmentView::Field(s.subrange(1, j)),
                        parse_segments(s.skip(j + 1)),
                    )
                } else {
                    None
                },
                None => None,
            }
        }
    } else if s[0] == '}' {
        if s.len() >= 2 && s[1] == '}' {
            seg_cons(SegmentView::Literal(seq!['}']), parse_segments(s.skip(2)))
        } else {
            None
        }
    } else {
        seg_cons(SegmentView::Literal(seq![s[0]]), parse_segments(s.drop_first()))
    }
}

proof fn lemma_find_close(s: Seq<char>)
    ensures
        match find_close(s) {
            Some(j) => 0 <= j < s.len() && s[j] == '}' && forall|t: int| 0 <= t < j ==> s[t] != '}',
            None => forall|t: int| 0 <= t < s.len() ==> s[t] != '}',
        },
    decreases s.len(),
{
    if s.len() > 0 && s[0] != '}' {
        let tail = s.drop_first();
        lemma_find_close(tail);
        assert(forall|t: int| 0 <= t < tail.len() ==> #[trigger] tail[t] == s[t + 1]);
        match find_close(tail) {
            Some(j) => {
                assert forall|t: int| 0 <= t < j + 1 implies s[t] != '}' by {
                    if t > 0 {
                        assert(tail[t - 1] == s[t]);
                    }
                }
            },
            None => {
                assert forall|t: int| 0 <= t < s.len() implies s[t] != '}' by {
                    if t > 0 {
                        assert(tail[t - 1] == s[t]);
                    }
                }
            },
        }
    }
}

/// A parse failure: an unmatched brace, an empty field name, or a brace
/// inside a field name.
#[derive(Debug, Clone, Copy, PartialEq, Eq, Structural)]
pub struct ParseError {}

/// A parsed field-substitution template: an ordered sequence of literal and
/// field segments, immutable after parse.
#[derive(Debug, Clone)]
pub struct PythonFormatString {
    segments: Vec<Segment>,
}

impl View for PythonFormatString {
    type V = Seq<SegmentView>;

    closed spec fn view(&self) -> Seq<SegmentView> {
        self.segments.deep_view()
    }
}

impl PythonFormatString {
    /// Parses `s` against the template grammar.
    #[verifier::rlimit(60)]
    pub fn parse(s: &str) -> (r: Result<PythonFormatString, ParseError>)
        ensures
            r matches Ok(f) ==> parse_segments(s@) == Some(f@),
            r matches Err(_) ==> parse_segments(s@) is None,
    {
        let cs = chars_of(s);
        let n = cs.len();
        let mut segs: Vec<Segment> = Vec::new();
        let mut i: usize = 0;
        proof {
            assert(cs@.skip(0) =~= cs@);
            assert(segs.deep_view() =~= Seq::<SegmentView>::empty());
            match parse_segments(cs@) {
                Some(rest) => {
                    assert(segs.deep_view() + rest =~= rest);
                },
                None => {},
            }
        }
        while i < n
            invariant
                cs@ == s@,
                n == cs@.len(),
                i <= n,
                match parse_segments(cs@.skip(i as int)) {
                    Some(rest) => parse_segments(cs@) == Some(segs.deep_view() + rest),
                    None => parse_segments(cs@) is None,
                },
            decreases n - i,
        {
            let ghost suffix = cs@.skip(i as int);
            let ghost done0 = segs.deep_view();
            proof {
                assert(suffix[0] == cs@[i as int]);
            }
            let c = cs[i];
            if c == '{' {
                if i + 1 < n && cs[i + 1] == '{' {
                    let mut t = String::new();
                    t.push('{');
                    segs.push(Segment::Literal(t));
                    proof {
                        let h = SegmentView::Literal(seq!['{']);
                        assert(suffix[1] == cs@[i + 1]);
                        assert(suffix.skip(2) =~= cs@.skip(i + 2));
                        assert(parse_segments(suffix) == seg_cons(h, parse_segments(cs@.skip(i + 2))));
                        assert(segs.deep_view() =~= done0.push(h));
                        match parse_segments(cs@.skip(i + 2)) {
                            Some(r2) => {
                                assert(done0 + (seq![h] + r2) =~= done0.push(h) + r2);
                            },
                            None => {},
                        }
                    }
                    i += 2;
                } else {
                    // Scan for the closing brace; remember whether an opening
                    // brace stands inside the would-be name.
                    let mut j = i + 1;
                    let mut inner_open = false;
                    while j < n && cs[j] != '}'
                        invariant
                            cs@ == s@,
                            n == cs@.len(),
                            i + 1 <= j <= n,
                            forall|t: int| i + 1 <= t < j ==> cs@[t] != '}',
                            inner_open ==> exists|t: int| i + 1 <= t < j && cs@[t] == '{',
                            !inner_open ==> forall|t: int| i + 1 <= t < j ==> cs@[t] != '{',
                        decreases n - j,
                    {
                        if cs[j] == '{' {
                            inner_open = true;
                        }
                        j += 1;
                    }
                    proof {
                        lemma_find_close(suffix);
                        assert(forall|t: int| 0 <= t < suffix.len() ==> #[trigger] suffix[t]
                            == cs@[i + t]);
                        assert(i + 1 < n && !(cs@[i + 1] == '{') ==> suffix.len() >= 2 && !(
                        suffix[1] == '{'));
                    }
                    if j == n {
                        proof {
                            assert(find_close(suffix) is None);
                            assert(parse_segments(suffix) is None);
                        }
                        return Err(ParseError {});
                    }
                    proof {
                        assert(cs@[j as int] == '}');
                        assert(suffix[j - i] == '}');
                        assert(find_close(suffix) == Some(j - i));
                    }
                    if j == i + 1 {
                        proof {
                            assert(parse_segments(suffix) is None);
                        }
                        return Err(ParseError {});
                    }
                    if inner_open {
                        proof {
                            let t0 = choose|t: int| i + 1 <= t < j && cs@[t] == '{';
                            assert(suffix[t0 - i] == '{');
                            assert(!(forall|t: int| 1 <= t < j - i ==> suffix[t] != '{'));
                            assert(parse_segments(suffix) is None);
                        }
                        return Err(ParseError {});
                    }
                    let mut name_chars: Vec<char> = Vec::new();
                    let mut t = i + 1;
                    while t < j
                        invariant
                            cs@ == s@,
                            n == cs@.len(),
                            i + 1 <= t <= j <= n,
                            name_chars@ =~= cs@.subrange(i + 1, t as int),
                        decreases j - t,
                    {
                        name_chars.push(cs[t]);
                        proof {
                            assert(name_chars@ =~= cs@.subrange(i + 1, t + 1));
                        }
                        t += 1;
                    }
                    let name = string_of_chars(&name_chars);
                    segs.push(Segment::Field(name));
                    proof {
                        let nm = cs@.subrange(i + 1, j as int);
                        let h = SegmentView::Field(nm);
                        assert(suffix.subrange(1, j - i) =~= nm);
                        assert(suffix.skip(j - i + 1) =~= cs@.skip(j + 1));
                        assert forall|t: int| 1 <= t < j - i implies suffix[t] != '{' by {
                            assert(suffix[t] == cs@[i + t]);
                        }
                        assert(parse_segments(suffix) == seg_cons(
                            h,
                            parse_segments(cs@.skip(j + 1)),
                        ));
                        assert(segs.deep_view() =~= done0.push(h));
                        match parse_segments(cs@.skip(j + 1)) {
                            Some(r2) => {
                                assert(done0 + (seq![h] + r2) =~= done0.push(h) + r2);
                            },
                            None => {},
                        }
                    }
                    i = j + 1;
                }
            } else if c == '}' {
                if i + 1 < n && cs[i + 1] == '}' {
                    let mut t = String::new();
                    t.push('}');
                    segs.push(Segment::Literal(t));
                    proof {
                        let h = SegmentView::Literal(seq!['}']);
                        assert(suffix[1] == cs@[i + 1]);
                        assert(suffix.skip(2) =~= cs@.skip(i + 2));
                        assert(parse_segments(suffix) == seg_cons(h, parse_segments(cs@.skip(i + 2))));
                        assert(segs.deep_view() =~= done0.push(h));
                        match parse_segments(cs@.skip(i + 2)) {
                            Some(r2) => {
                                assert(done0 + (seq![h] + r2) =~= done0.push(h) + r2);
                            },
                            None => {},
                        }
                    }
                    i += 2;
                } else {
                    proof {
                        assert(i + 1 < n ==> suffix[1] == cs@[i + 1]);
                        assert(parse_segments(suffix) is None);
                    }
                    return Err(ParseError {});
                }
            } else {
                let mut t = String::new();
                t.push(c);
                segs.push(Segment::Literal(t));
                proof {
                    let h = SegmentView::Literal(seq![cs@[i as int]]);
                    assert(suffix.drop_first() =~= cs@.skip(i + 1));
                    assert(parse_segments(suffix) == seg_cons(h, parse_segments(cs@.skip(i + 1))));
                    assert(segs.deep_view() =~= done0.push(h));
                    match parse_segments(cs@.skip(i + 1)) {
                        Some(r2) => {
                            assert(done0 + (seq![h] + r2) =~= done0.push(h) + r2);
                        },
                        None => {},
                    }
                }
                i += 1;
            }
        }
        proof {
            assert(cs@.skip(n as int) =~= Seq::<char>::empty());
            assert(parse_segments(cs@.skip(n as int)) == Some(Seq::<SegmentView>::empty()));
            assert(segs.deep_view() + Seq::<SegmentView>::empty() =~= segs.deep_view());
        }
        Ok(PythonFormatString { segments: segs })
    }
}

/// A field reference whose name is absent from the rendering context; carries
/// that name.
#[derive(Debug, Clone)]
pub struct MissingArgumentError {
    pub name: String,
}

/// What rendering one segment yields: its literal text (regex-escaped when
/// `escape` is set), or the context's value for its field; `Err` carries the
/// name of a missing field.
pub open spec fn render_one(
    seg: SegmentView,
    ctx: Seq<(Seq<char>, Seq<char>)>,
    escape: bool,
) -> Result<Seq<char>, Seq<char>> {
    match seg {
        SegmentView::Literal(t) => Ok(
            if escape {
                regex_escaped(t)
            } else {
                t
            },
        ),
        SegmentView::Field(n) => match ctx_lookup(ctx, n) {
            Some(v) => Ok(v),
            None => Err(n),
        },
    }
}

/// What rendering a template yields: the concatenation of its rendered
/// segments, or the name of the first missing field.
pub open spec fn render_segments(
    segs: Seq<SegmentView>,
    ctx: Seq<(Seq<char>, Seq<char>)>,
    escape: bool,
) -> Result<Seq<char>, Seq<char>>
    decreases segs.len(),
{
    if segs.len() == 0 {
        Ok(Seq::empty())
    } else {
        match render_one(segs[0], ctx, escape) {
            Err(n) => Err(n),
            Ok(h) => match render_segments(segs.drop_first(), ctx, escape) {
                Ok(t) => Ok(h + t),
                Err(n) => Err(n),
            },
        }
    }
}

proof fn lemma_render_concat(
    a: Seq<SegmentView>,
    b: Seq<SegmentView>,
    ctx: Seq<(Seq<char>, Seq<char>)>,
    escape: bool,
)
    ensures
        render_segments(a + b, ctx, escape) == (match render_segments(a, ctx, escape) {
            Err(n) => Err::<Seq<char>, Seq<char>>(n),
            Ok(t) => match render_segments(b, ctx, escape) {
                Ok(u) => Ok::<Seq<char>, Seq<char>>(t + u),
                Err(n) => Err::<Seq<char>, Seq<char>>(n),
            },
        }),
    decreases a.len(),
{
    if a.len() == 0 {
        assert(a + b =~= b);
        match render_segments(b, ctx, escape) {
            Ok(u) => {
                assert(Seq::<char>::empty() + u =~= u);
            },
            Err(_) => {},
        }
    } else {
        assert((a + b).len() > 0);
        assert((a + b)[0] == a[0]);
        assert((a + b).drop_first() =~= a.drop_first() + b);
        lemma_render_concat(a.drop_first(), b, ctx, escape);
        match render_one(a[0], ctx, escape) {
            Err(_) => {},
            Ok(h) => {
                match render_segments(a.drop_first(), ctx, escape) {
                    Err(_) => {},
                    Ok(t) => {
                        match render_segments(b, ctx, escape) {
                            Err(_) => {},
                            Ok(u) => {
                                assert(h + (t + u) =~= (h + t) + u);
                            },
                        }
                    },
                }
            },
        }
    }
}

/// The set of field names a template references.
pub open spec fn seg_names(segs: Seq<SegmentView>) -> Set<Seq<char>>
    decreases segs.len(),
{
    if segs.len() == 0 {
        Set::empty()
    } else {
        let rest = seg_names(segs.drop_first());
        match segs[0] {
            SegmentView::Field(n) => rest.insert(n),
            SegmentView::Literal(_) => rest,
        }
    }
}

proof fn lemma_seg_names_snoc(segs: Seq<SegmentView>, x: SegmentView)
    ensures
        seg_names(segs.push(x)) == (match x {
            SegmentView::Field(n) => seg_names(segs).insert(n),
            SegmentView::Literal(_) => seg_names(segs),
        }),
    decreases segs.len(),
{
    if segs.len() == 0 {
        assert(segs.push(x).drop_first() =~= Seq::<SegmentView>::empty());
        assert(segs.push(x)[0] == x);
        assert(seg_names(segs) =~= Set::<Seq<char>>::empty());
        assert(seg_names(segs.push(x).drop_first()) =~= Set::<Seq<char>>::empty());
        assert(segs.push(x).len() == 1);
        match x {
            SegmentView::Field(n) => {
                assert(seg_names(segs.push(x)) == seg_names(segs.push(x).drop_first()).insert(n));
                assert(seg_names(segs.push(x)) =~= seg_names(segs).insert(n));
            },
            SegmentView::Literal(_) => {
                assert(seg_names(segs.push(x)) == seg_names(segs.push(x).drop_first()));
                assert(seg_names(segs.push(x)) =~= seg_names(segs));
            },
        }
    } else {
        assert(segs.push(x).drop_first() =~= segs.drop_first().push(x));
        assert(segs.push(x)[0] == segs[0]);
        lemma_seg_names_snoc(segs.drop_first(), x);
        match x {
            SegmentView::Field(n) => {
                assert(seg_names(segs.push(x)) =~= seg_names(segs).insert(n));
            },
            SegmentView::Literal(_) => {
                assert(seg_names(segs.push(x)) =~= seg_names(segs));
            },
        }
    }
}

proof fn lemma_render_step(
    prefix: Seq<SegmentView>,
    x: SegmentView,
    ctx: Seq<(Seq<char>, Seq<char>)>,
    escape: bool,
    t0: Seq<char>,
    h: Seq<char>,
)
    requires
        render_segments(prefix, ctx, escape) == Ok::<Seq<char>, Seq<char>>(t0),
        render_one(x, ctx, escape) == Ok::<Seq<char>, Seq<char>>(h),
    ensures
        render_segments(prefix.push(x), ctx, escape) == Ok::<Seq<char>, Seq<char>>(t0 + h),
{
    lemma_render_concat(prefix, seq![x], ctx, escape);
    assert(seq![x].len() == 1);
    assert(seq![x][0] == x);
    assert(seq![x].drop_first() =~= Seq::<SegmentView>::empty());
    assert(render_segments(Seq::<SegmentView>::empty(), ctx, escape) == Ok::<Seq<char>, Seq<char>>(
        Seq::<char>::empty(),
    ));
    assert(render_segments(seq![x].drop_first(), ctx, escape) == Ok::<Seq<char>, Seq<char>>(
        Seq::<char>::empty(),
    ));
    assert(render_segments(seq![x], ctx, escape) == Ok::<Seq<char>, Seq<char>>(
        h + Seq::<char>::empty(),
    ));
    assert(h + Seq::<char>::empty() =~= h);
    assert(prefix + seq![x] =~= prefix.push(x));
}

impl PythonFormatString {
    /// Renders the template against `ctx`: literal segments verbatim (or
    /// regex-escaped when `escape_for_regex` is set), each field replaced by
    /// the context's value for it, inserted without escaping. Fails with the
    /// first missing field's name.
    pub fn format(&self, ctx: &Vec<(String, String)>, escape_for_regex: bool) -> (r: Result<
        String,
        MissingArgumentError,
    >)
        ensures
            r matches Ok(t) ==> render_segments(self@, ctx.deep_view(), escape_for_regex)
                == Ok::<Seq<char>, Seq<char>>(t@),
            r matches Err(e) ==> render_segments(self@, ctx.deep_view(), escape_for_regex)
                == Err::<Seq<char>, Seq<char>>(e.name@),
    {
        let ghost ctxv = ctx.deep_view();
        let mut out = String::new();
        let mut i: usize = 0;
        proof {
            assert(self@.subrange(0, 0) =~= Seq::<SegmentView>::empty());
        }
        while i < self.segments.len()
            invariant
                ctxv == ctx.deep_view(),
                i <= self.segments@.len(),
                self@.len() == self.segments@.len(),
                render_segments(self@.subrange(0, i as int), ctxv, escape_for_regex)
                    == Ok::<Seq<char>, Seq<char>>(out@),
            decreases self.segments@.len() - i,
        {
            let ghost prefix = self@.subrange(0, i as int);
            let ghost x = self@[i as int];
            let ghost out0 = out@;
            proof {
                assert(x == self.segments@[i as int].deep_view());
                assert(prefix.push(x) =~= self@.subrange(0, i + 1));
            }
            match &self.segments[i] {
                Segment::Literal(t) => {
                    proof {
                        assert(x == SegmentView::Literal(t@));
                    }
                    if escape_for_regex {
                        let esc = regex_escape(t.as_str());
                        out.append(esc.as_str());
                    } else {
                        out.append(t.as_str());
                    }
                    proof {
                        let h = if escape_for_regex {
                            regex_escaped(t@)
                        } else {
                            t@
                        };
                        assert(render_one(x, ctxv, escape_for_regex) == Ok::<Seq<char>, Seq<char>>(
                            h,
                        ));
                        assert(out@ == out0 + h);
                        lemma_render_step(prefix, x, ctxv, escape_for_regex, out0, h);
                    }
                },
                Segment::Field(nm) => {
                    proof {
                        assert(x == SegmentView::Field(nm@));
                    }
                    match ctx_get(ctx, nm.as_str()) {
                        Some(v) => {
                            out.append(v.as_str());
                            proof {
                                assert(render_one(x, ctxv, escape_for_regex) == Ok::<
                                    Seq<char>,
                                    Seq<char>,
                                >(v@));
                                assert(out@ == out0 + v@);
                                lemma_render_step(prefix, x, ctxv, escape_for_regex, out0, v@);
                            }
                        },
                        None => {
                            proof {
                                assert(render_one(x, ctxv, escape_for_regex) == Err::<
                                    Seq<char>,
                                    Seq<char>,
                                >(nm@));
                                assert(self@.skip(i as int)[0] == x);
                                assert(self@.skip(i as int).drop_first() =~= self@.skip(i + 1));
                                assert(render_segments(self@.skip(i as int), ctxv, escape_for_regex)
                                    == Err::<Seq<char>, Seq<char>>(nm@));
                                assert(self@ =~= prefix + self@.skip(i as int));
                                lemma_render_concat(
                                    prefix,
                                    self@.skip(i as int),
                                    ctxv,
                                    escape_for_regex,
                                );
                                assert(render_segments(self@, ctxv, escape_for_regex) == Err::<
                                    Seq<char>,
                                    Seq<char>,
                                >(nm@));
                            }
                            return Err(MissingArgumentError { name: nm.clone() });
                        },
                    }
                },
            }
            i += 1;
        }
        proof {
            assert(self@.subrange(0, self@.len() as int) =~= self@);
        }
        Ok(out)
    }

    /// Does the template reference the field `name`?
    pub fn contains_name(&self, name: &str) -> (r: bool)
        ensures
            r == seg_names(self@).contains(name@),
    {
        let mut found = false;
        let mut i: usize = 0;
        proof {
            assert(self@.subrange(0, 0) =~= Seq::<SegmentView>::empty());
        }
        while i < self.segments.len()
            invariant
                i <= self.segments@.len(),
                self@.len() == self.segments@.len(),
                found == seg_names(self@.subrange(0, i as int)).contains(name@),
            decreases self.segments@.len() - i,
        {
            proof {
                lemma_seg_names_snoc(self@.subrange(0, i as int), self@[i as int]);
                assert(self@.subrange(0, i as int).push(self@[i as int]) =~= self@.subrange(
                    0,
                    i + 1,
                ));
            }
            match &self.segments[i] {
                Segment::Field(n) => {
                    if str_eq(n.as_str(), name) {
                        found = true;
                    }
                },
                Segment::Literal(_) => {},
            }
            i += 1;
        }
        proof {
            assert(self@.subrange(0, self@.len() as int) =~= self@);
        }
        found
    }

    /// How many distinct field names the template references.
    pub fn field_count(&self) -> (r: usize)
        ensures
            r == seg_names(self@).len(),
    {
        let mut names: Vec<String> = Vec::new();
        let mut i: usize = 0;
        proof {
            assert(self@.subrange(0, 0) =~= Seq::<SegmentView>::empty());
            assert(names.deep_view().to_set() =~= Set::<Seq<char>>::empty());
        }
        while i < self.segments.len()
            invariant
                i <= self.segments@.len(),
                self@.len() == self.segments@.len(),
                names.deep_view().no_duplicates(),
                names.deep_view().to_set() == seg_names(self@.subrange(0, i as int)),
            decreases self.segments@.len() - i,
        {
            proof {
                lemma_seg_names_snoc(self@.subrange(0, i as int), self@[i as int]);
                assert(self@.subrange(0, i as int).push(self@[i as int]) =~= self@.subrange(
                    0,
                    i + 1,
                ));
            }
            match &self.segments[i] {
                Segment::Field(n) => {
                    let ghost names0 = names.deep_view();
                    if !vec_contains_str(&names, n.as_str()) {
                        names.push(n.clone());
                        proof {
                            assert(names.deep_view() =~= names0 + seq![n@]);
                            Seq::lemma_to_set_insert_commutes(names0, n@);
                        }
                    } else {
                        proof {
                            assert(names0.to_set().insert(n@) =~= names0.to_set());
                        }
                    }
                },
                Segment::Literal(_) => {},
            }
            i += 1;
        }
        proof {
            assert(self@.subrange(0, self@.len() as int) =~= self@);
            names.deep_view().unique_seq_to_set();
        }
        names.len()
    }
}

impl DeepView for PythonFormatString {
    type V = Seq<SegmentView>;

    open spec fn deep_view(&self) -> Seq<SegmentView> {
        self.view()
    }
}

impl core::str::FromStr for PythonFormatString {
    type Err = ParseError;

    fn from_str(s: &str) -> Result<PythonFormatString, ParseError> {
        PythonFormatString::parse(s)
    }
}

/// A template whose rendered text is meant to compile as a regular
/// expression: literal segments are regex-escaped on render, field values are
/// inserted as they are.
#[derive(Debug, Clone)]
pub struct RegexTemplate {
    template: PythonFormatString,
}

impl View for RegexTemplate {
    type V = Seq<SegmentView>;

    closed spec fn view(&self) -> Seq<SegmentView> {
        self.template@
    }
}

/// Why rendering a search template failed.
#[derive(Debug)]
pub enum RegexTemplateError {
    /// A field of the template is absent from the context.
    MissingArgument(MissingArgumentError),
    /// The rendered text does not compile as a regular expression; carries
    /// that text.
    InvalidRegex(String),
}

/// Spec-level image of a [`RegexTemplateError`].
pub enum RegexTemplateErrorView {
    MissingArgument(Seq<char>),
    InvalidRegex(Seq<char>),
}

impl View for RegexTemplateError {
    type V = RegexTemplateErrorView;

    open spec fn view(&self) -> RegexTemplateErrorView {
        match self {
            RegexTemplateError::MissingArgument(m) => RegexTemplateErrorView::MissingArgument(
                m.name@,
            ),
            RegexTemplateError::InvalidRegex(t) => RegexTemplateErrorView::InvalidRegex(t@),
        }
    }
}

/// What formatting a search template yields: the rendered pattern text (with
/// literals regex-escaped), or why there is none.
pub open spec fn search_pattern_of(
    segs: Seq<SegmentView>,
    ctx: Seq<(Seq<char>, Seq<char>)>,
) -> Result<Seq<char>, RegexTemplateErrorView> {
    match render_segments(segs, ctx, true) {
        Err(n) => Err(RegexTemplateErrorView::MissingArgument(n)),
        Ok(t) => if regex_compiles(t) {
            Ok(t)
        } else {
            Err(RegexTemplateErrorView::InvalidRegex(t))
        },
    }
}

impl RegexTemplate {
    /// Wraps an already parsed template.
    pub fn new(template: PythonFormatString) -> (r: RegexTemplate)
        ensures
            r@ == template@,
    {
        RegexTemplate { template }
    }

    /// Parses `s` against the template grammar.
    pub fn parse(s: &str) -> (r: Result<RegexTemplate, ParseError>)
        ensures
            r matches Ok(f) ==> parse_segments(s@) == Some(f@),
            r matches Err(_) ==> parse_segments(s@) is None,
    {
        match PythonFormatString::parse(s) {
            Ok(template) => Ok(RegexTemplate { template }),
            Err(e) => Err(e),
        }
    }

    /// Renders the template with literal text regex-escaped, then compiles
    /// the rendered text.
    pub fn format(&self, ctx: &Vec<(String, String)>) -> (r: Result<
        CompiledPattern,
        RegexTemplateError,
    >)
        ensures
            r matches Ok(p) ==> search_pattern_of(self@, ctx.deep_view()) == Ok::<
                Seq<char>,
                RegexTemplateErrorView,
            >(p.src()),
            r matches Err(e) ==> search_pattern_of(self@, ctx.deep_view()) == Err::<
                Seq<char>,
                RegexTemplateErrorView,
            >(e@),
    {
        match self.template.format(ctx, true) {
            Ok(text) => match CompiledPattern::new(text.as_str()) {
                Some(p) => Ok(p),
                None => Err(RegexTemplateError::InvalidRegex(text)),
            },
            Err(e) => Err(RegexTemplateError::MissingArgument(e)),
        }
    }
}

} // verus!
