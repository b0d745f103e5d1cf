//! Versions: an ordered schema of named components, parsing against a regex
//! with named capture groups, schema-wide bumping, and minimal-form
//! serialization through candidate templates.

use vstd::prelude::*;
use crate::component::{
    component_bump_of, effective_value_of, optional_marker_of, reset_value_of, BumpError,
    Component, ComponentSpecView, ComponentView, VersionComponentSpec,
};
use crate::f_string::{
    ctx_lookup, render_segments, seg_names, MissingArgumentError, PythonFormatString, SegmentView,
};
use crate::pattern::{regex_capture, regex_matches, CompiledPattern};
use crate::strutil::str_eq;

verus! {

/// The first index whose key is `name`.
pub open spec fn key_index_of<T>(entries: Seq<(Seq<char>, T)>, name: Seq<char>) -> Option<int>
    decreases entries.len(),
{
    if entries.len() == 0 {
        None
    } else if entries[0].0 == name {
        Some(0)
    } else {
        match key_index_of(entries.drop_first(), name) {
            Some(i) => Some(i + 1),
            None => None,
        }
    }
}

pub proof fn lemma_key_index_of<T>(entries: Seq<(Seq<char>, T)>, name: Seq<char>)
    ensures
        match key_index_of(entries, name) {
            Some(i) => 0 <= i < entries.len() && entries[i].0 == name && forall|j: int|
                0 <= j < i ==> entries[j].0 != name,
            None => forall|j: int| 0 <= j < entries.len() ==> entries[j].0 != name,
        },
    decreases entries.len(),
{
    if entries.len() > 0 && entries[0].0 != name {
        let tail = entries.drop_first();
        lemma_key_index_of(tail, name);
        assert(forall|j: int| 0 <= j < tail.len() ==> #[trigger] tail[j] == entries[j + 1]);
        match key_index_of(tail, name) {
            Some(i) => {
                assert forall|j: int| 0 <= j < i + 1 implies entries[j].0 != name by {
                    if j > 0 {
                        assert(tail[j - 1] == entries[j]);
                    }
                }
            },
            None => {
                assert forall|j: int| 0 <= j < entries.len() implies entries[j].0 != name by {
                    if j > 0 {
                        assert(tail[j - 1] == entries[j]);
                    }
                }
            },
        }
    }
}

/// The ordered schema: component name to configuration, most significant
/// first. Immutable once built.
#[derive(Debug, Clone)]
pub struct VersionSpec {
    components: Vec<(String, VersionComponentSpec)>,
}

impl View for VersionSpec {
    type V = Seq<(Seq<char>, ComponentSpecView)>;

    closed spec fn view(&self) -> Seq<(Seq<char>, ComponentSpecView)> {
        self.components.deep_view()
    }
}

/// A version: every name of its schema mapped to a component, in schema
/// order. Produced by parse or build; bumping produces a new version.
#[derive(Debug)]
pub struct Version {
    components: Vec<(String, Component)>,
}

impl View for Version {
    type V = Seq<(Seq<char>, ComponentView)>;

    closed spec fn view(&self) -> Seq<(Seq<char>, ComponentView)> {
        self.components.deep_view()
    }
}

/// The version built from a schema and raw values: each component takes the
/// first raw entry under its name, omitted when there is none.
pub open spec fn build_view(
    sp: Seq<(Seq<char>, ComponentSpecView)>,
    raw: Seq<(Seq<char>, Seq<char>)>,
) -> Seq<(Seq<char>, ComponentView)> {
    Seq::new(
        sp.len(),
        |i: int| (sp[i].0, ComponentView { raw: ctx_lookup(raw, sp[i].0), config: sp[i].1 }),
    )
}

/// The version parsed from `text`: each component takes what its named
/// capture group captured in the leftmost match of `pat`, omitted when the
/// group did not participate.
pub open spec fn parse_view(
    sp: Seq<(Seq<char>, ComponentSpecView)>,
    pat: Seq<char>,
    text: Seq<char>,
) -> Seq<(Seq<char>, ComponentView)> {
    Seq::new(
        sp.len(),
        |i: int| (sp[i].0, ComponentView { raw: regex_capture(pat, text, sp[i].0), config: sp[i].1 }),
    )
}

/// What bumping the named component yields: that component advanced, those
/// after it reset, those before it unchanged; or the error that applies.
pub open spec fn bump_view(v: Seq<(Seq<char>, ComponentView)>, name: Seq<char>) -> Result<
    Seq<(Seq<char>, ComponentView)>,
    BumpError,
> {
    match key_index_of(v, name) {
        None => Err(BumpError::MissingComponent),
        Some(i) => match component_bump_of(v[i].1) {
            Err(e) => Err(e),
            Ok(nv) => Ok(
                Seq::new(
                    v.len(),
                    |j: int|
                        if j < i {
                            v[j]
                        } else if j == i {
                            (v[i].0, ComponentView { raw: Some(nv), config: v[i].1.config })
                        } else {
                            (
                                v[j].0,
                                ComponentView {
                                    raw: Some(reset_value_of(v[j].1.config)),
                                    config: v[j].1.config,
                                },
                            )
                        },
                ),
            ),
        },
    }
}

/// Is the component required in a serialized form, i.e. does its effective
/// value differ from its optional marker?
pub open spec fn component_required(c: ComponentView) -> bool {
    effective_value_of(c) != optional_marker_of(c.config)
}

/// Does the candidate template reference every required component?
pub open spec fn covers_required(
    v: Seq<(Seq<char>, ComponentView)>,
    segs: Seq<SegmentView>,
) -> bool {
    forall|i: int|
        0 <= i < v.len() && component_required(#[trigger] v[i].1) ==> seg_names(segs).contains(
            v[i].0,
        )
}

/// The selected candidate: among those that cover every required component,
/// the one referencing the fewest distinct field names, ties broken by
/// earliest position.
pub open spec fn best_candidate(
    v: Seq<(Seq<char>, ComponentView)>,
    cands: Seq<Seq<SegmentView>>,
) -> Option<int>
    decreases cands.len(),
{
    if cands.len() == 0 {
        None
    } else {
        let prev = best_candidate(v, cands.drop_last());
        let i = cands.len() - 1;
        if covers_required(v, cands[i]) && (match prev {
            None => true,
            Some(p) => seg_names(cands[i]).len() < seg_names(cands[p]).len(),
        }) {
            Some(i)
        } else {
            prev
        }
    }
}

pub proof fn lemma_best_candidate_range(
    v: Seq<(Seq<char>, ComponentView)>,
    cands: Seq<Seq<SegmentView>>,
)
    ensures
        best_candidate(v, cands) matches Some(i) ==> 0 <= i < cands.len(),
    decreases cands.len(),
{
    if cands.len() > 0 {
        lemma_best_candidate_range(v, cands.drop_last());
    }
}

/// The context a version serializes under: every component name mapped to its
/// effective value; these take precedence over the caller's entries.
pub open spec fn version_ctx(v: Seq<(Seq<char>, ComponentView)>) -> Seq<(Seq<char>, Seq<char>)> {
    Seq::new(v.len(), |i: int| (v[i].0, effective_value_of(v[i].1)))
}

/// Why serialization failed.
#[derive(Debug)]
pub enum SerializeError {
    /// No candidate template references every required component.
    NoQualifyingPattern,
    /// A field of the selected template is absent from the render context;
    /// carries that field's name.
    MissingArgument(MissingArgumentError),
}

/// Spec-level image of a [`SerializeError`].
pub enum SerializeErrorView {
    NoQualifyingPattern,
    MissingArgument(Seq<char>),
}

impl View for SerializeError {
    type V = SerializeErrorView;

    open spec fn view(&self) -> SerializeErrorView {
        match self {
            SerializeError::NoQualifyingPattern => SerializeErrorView::NoQualifyingPattern,
            SerializeError::MissingArgument(m) => SerializeErrorView::MissingArgument(m.name@),
        }
    }
}

/// What serializing a version yields: the selected candidate rendered against
/// the extended context, or why there is no serialized form.
pub open spec fn serialize_of(
    v: Seq<(Seq<char>, ComponentView)>,
    cands: Seq<Seq<SegmentView>>,
    ctx: Seq<(Seq<char>, Seq<char>)>,
) -> Result<Seq<char>, SerializeErrorView> {
    match best_candidate(v, cands) {
        None => Err(SerializeErrorView::NoQualifyingPattern),
        Some(i) => match render_segments(cands[i], version_ctx(v) + ctx, false) {
            Ok(s) => Ok(s),
            Err(n) => Err(SerializeErrorView::MissingArgument(n)),
        },
    }
}

impl VersionSpec {
    /// A schema from an ordered list of named component configurations.
    pub fn from_components(components: Vec<(String, VersionComponentSpec)>) -> (r: VersionSpec)
        ensures
            r@ == components.deep_view(),
    {
        VersionSpec { components }
    }

    /// The version whose components take the first raw entry under their
    /// name, omitted where there is none.
    pub fn build(&self, raw: &Vec<(String, String)>) -> (r: Version)
        ensures
            r@ == build_view(self@, raw.deep_view()),
    {
        let ghost target = build_view(self@, raw.deep_view());
        let mut components: Vec<(String, Component)> = Vec::new();
        let mut i: usize = 0;
        while i < self.components.len()
            invariant
                i <= self.components@.len(),
                self@.len() == self.components@.len(),
                target == build_view(self@, raw.deep_view()),
                components.deep_view() =~= target.subrange(0, i as int),
            decreases self.components@.len() - i,
        {
            let name = &self.components[i].0;
            let cfg = &self.components[i].1;
            let value = match crate::f_string::ctx_get(raw, name.as_str()) {
                Some(v) => Some(v.as_str()),
                None => None,
            };
            let comp = Component::new(value, cfg.duplicate());
            let ghost prev = components.deep_view();
            components.push((name.clone(), comp));
            proof {
                assert(self@[i as int] == (self.components@[i as int].0@, self.components@[
                i as int].1.deep_view()));
                assert(components.deep_view() =~= prev.push((name@, comp@)));
                assert(comp@.raw == ctx_lookup(raw.deep_view(), self@[i as int].0));
                assert((name@, comp@) == build_view(self@, raw.deep_view())[i as int]);
                assert(components.deep_view() =~= target.subrange(0, i + 1));
            }
            i += 1;
        }
        proof {
            assert(components.deep_view() =~= target);
        }
        Version { components }
    }
}

impl Version {
    /// Parses `text` with a pattern whose named capture groups correspond to
    /// the schema's component names: `None` when the pattern does not match;
    /// otherwise every component takes its group's capture, omitted where the
    /// group did not participate.
    pub fn parse(text: &str, pattern: &CompiledPattern, spec: &VersionSpec) -> (r: Option<Version>)
        ensures
            (r is Some) == regex_matches(pattern.src(), text@),
            r matches Some(v) ==> v@ == parse_view(spec@, pattern.src(), text@),
    {
        // One probe with a group name no pattern defines decides whether the
        // pattern matches at all; the capture it reports is discarded.
        if pattern.capture_group(text, "").is_none() {
            return None;
        }
        let ghost target = parse_view(spec@, pattern.src(), text@);
        let mut components: Vec<(String, Component)> = Vec::new();
        let mut i: usize = 0;
        while i < spec.components.len()
            invariant
                i <= spec.components@.len(),
                spec@.len() == spec.components@.len(),
                regex_matches(pattern.src(), text@),
                target == parse_view(spec@, pattern.src(), text@),
                components.deep_view() =~= target.subrange(0, i as int),
            decreases spec.components@.len() - i,
        {
            let name = &spec.components[i].0;
            let cfg = &spec.components[i].1;
            let captured = match pattern.capture_group(text, name.as_str()) {
                Some(g) => g,
                None => {
                    proof {
                        assert(false);
                    }
                    return None;
                },
            };
            let value = match &captured {
                Some(s) => Some(s.as_str()),
                None => None,
            };
            let comp = Component::new(value, cfg.duplicate());
            let ghost prev = components.deep_view();
            components.push((name.clone(), comp));
            proof {
                assert(spec@[i as int] == (spec.components@[i as int].0@, spec.components@[
                i as int].1.deep_view()));
                assert(components.deep_view() =~= prev.push((name@, comp@)));
                assert(comp@.raw == regex_capture(pattern.src(), text@, spec@[i as int].0));
                assert((name@, comp@) == parse_view(spec@, pattern.src(), text@)[i as int]);
                assert(components.deep_view() =~= target.subrange(0, i + 1));
            }
            i += 1;
        }
        proof {
            assert(components.deep_view() =~= target);
        }
        Some(Version { components })
    }

    /// The position of the component under `name`.
    fn key_position(&self, name: &str) -> (r: Option<usize>)
        ensures
            match r {
                Some(i) => key_index_of(self@, name@) == Some(i as int),
                None => key_index_of(self@, name@) is None,
            },
    {
        let mut i: usize = 0;
        while i < self.components.len()
            invariant
                i <= self.components@.len(),
                self@.len() == self.components@.len(),
                forall|j: int| 0 <= j < i ==> self@[j].0 != name@,
            decreases self.components@.len() - i,
        {
            if str_eq(self.components[i].0.as_str(), name) {
                proof {
                    lemma_key_index_of(self@, name@);
                    assert(self@[i as int].0 == name@);
                    assert(key_index_of(self@, name@) == Some(i as int));
                }
                return Some(i);
            }
            i += 1;
        }
        proof {
            lemma_key_index_of(self@, name@);
        }
        None
    }

    /// The component under `name`, when the schema has one.
    pub fn get(&self, name: &str) -> (r: Option<&Component>)
        ensures
            match key_index_of(self@, name@) {
                Some(i) => r matches Some(c) && c@ == self@[i].1,
                None => r is None,
            },
    {
        match self.key_position(name) {
            Some(i) => {
                proof {
                    assert(self@ == self.components.deep_view());
                    lemma_key_index_of(self@, name@);
                    assert(i < self.components@.len());
                    assert(self@[i as int].1 == self.components@[i as int].1.deep_view());
                }
                Some(&self.components[i].1)
            },
            None => None,
        }
    }

    /// The version with the named component advanced, every component after
    /// it reset to its first value, and every component before it unchanged;
    /// `MissingComponent` when the schema has no such name, and the named
    /// component's own failure otherwise.
    pub fn bump(&self, name: &str) -> (r: Result<Version, BumpError>)
        ensures
            r matches Ok(w) ==> bump_view(self@, name@) == Ok::<
                Seq<(Seq<char>, ComponentView)>,
                BumpError,
            >(w@),
            r matches Err(e) ==> bump_view(self@, name@) == Err::<
                Seq<(Seq<char>, ComponentView)>,
                BumpError,
            >(e),
    {
        let n = self.components.len();
        let idx = match self.key_position(name) {
            Some(i) => i,
            None => {
                return Err(BumpError::MissingComponent);
            },
        };
        proof {
            lemma_key_index_of(self@, name@);
            assert(self@[idx as int].1 == self.components@[idx as int].1.deep_view());
        }
        let bumped = match self.components[idx].1.bump() {
            Ok(c) => c,
            Err(e) => {
                return Err(e);
            },
        };
        let ghost nv = component_bump_of(self@[idx as int].1)->Ok_0;
        let ghost target = bump_view(self@, name@)->Ok_0;
        let mut components: Vec<(String, Component)> = Vec::new();
        let mut j: usize = 0;
        while j < n
            invariant
                n == self.components@.len(),
                self@.len() == self.components@.len(),
                j <= n,
                idx < n,
                self@[idx as int].0 == name@,
                key_index_of(self@, name@) == Some(idx as int),
                component_bump_of(self@[idx as int].1) == Ok::<Seq<char>, BumpError>(nv),
                bumped@.raw == Some(nv),
                bumped@.config == self@[idx as int].1.config,
                target == bump_view(self@, name@)->Ok_0,
                components.deep_view() =~= target.subrange(0, j as int),
            decreases n - j,
        {
            let name_j = self.components[j].0.clone();
            let comp: Component = if j < idx {
                self.components[j].1.duplicate()
            } else if j == idx {
                bumped.duplicate()
            } else {
                self.components[j].1.first()
            };
            let ghost prev = components.deep_view();
            components.push((name_j, comp));
            proof {
                assert(self@[j as int] == (self.components@[j as int].0@, self.components@[
                j as int].1.deep_view()));
                assert(components.deep_view() =~= prev.push((self@[j as int].0, comp@)));
                assert((self@[j as int].0, comp@) == target[j as int]);
                assert(components.deep_view() =~= target.subrange(0, j + 1));
            }
            j += 1;
        }
        proof {
            assert(components.deep_view() =~= target);
        }
        Ok(Version { components })
    }

    /// Does the candidate template reference every required component of this
    /// version?
    fn covers(&self, f: &PythonFormatString) -> (r: bool)
        ensures
            r == covers_required(self@, f@),
    {
        let mut i: usize = 0;
        while i < self.components.len()
            invariant
                i <= self.components@.len(),
                self@.len() == self.components@.len(),
                forall|j: int|
                    0 <= j < i && component_required(#[trigger] self@[j].1) ==> seg_names(
                        f@,
                    ).contains(self@[j].0),
            decreases self.components@.len() - i,
        {
            let comp = &self.components[i].1;
            let marker = comp.config().optional_marker();
            let required = !str_eq(comp.effective(), marker.as_str());
            proof {
                assert(self@[i as int].1 == self.components@[i as int].1.deep_view());
            }
            if required {
                if !f.contains_name(self.components[i].0.as_str()) {
                    proof {
                        assert(component_required(self@[i as int].1));
                        assert(!seg_names(f@).contains(self@[i as int].0));
                    }
                    return false;
                }
            }
            i += 1;
        }
        true
    }

    /// The render context of this version: each component name mapped to its
    /// effective value, followed by the caller's entries.
    fn render_ctx(&self, ctx: &Vec<(String, String)>) -> (r: Vec<(String, String)>)
        ensures
            r.deep_view() == version_ctx(self@) + ctx.deep_view(),
    {
        let ghost target = version_ctx(self@) + ctx.deep_view();
        let mut r: Vec<(String, String)> = Vec::new();
        let mut i: usize = 0;
        while i < self.components.len()
            invariant
                i <= self.components@.len(),
                self@.len() == self.components@.len(),
                target == version_ctx(self@) + ctx.deep_view(),
                r.deep_view() =~= version_ctx(self@).subrange(0, i as int),
            decreases self.components@.len() - i,
        {
            let name = self.components[i].0.clone();
            let value = self.components[i].1.effective().to_owned();
            let ghost prev = r.deep_view();
            r.push((name, value));
            proof {
                assert(self@[i as int] == (self.components@[i as int].0@, self.components@[
                i as int].1.deep_view()));
                assert(r.deep_view() =~= prev.push((self@[i as int].0, effective_value_of(
                    self@[i as int].1,
                ))));
                assert((self@[i as int].0, effective_value_of(self@[i as int].1)) == version_ctx(
                    self@,
                )[i as int]);
                assert(r.deep_view() =~= version_ctx(self@).subrange(0, i + 1));
            }
            i += 1;
        }
        let mut k: usize = 0;
        while k < ctx.len()
            invariant
                k <= ctx@.len(),
                ctx.deep_view().len() == ctx@.len(),
                target == version_ctx(self@) + ctx.deep_view(),
                r.deep_view() =~= version_ctx(self@) + ctx.deep_view().subrange(0, k as int),
            decreases ctx@.len() - k,
        {
            let name = ctx[k].0.clone();
            let value = ctx[k].1.clone();
            let ghost prev = r.deep_view();
            r.push((name, value));
            proof {
                assert(ctx.deep_view()[k as int] == (ctx@[k as int].0@, ctx@[k as int].1@));
                assert(r.deep_view() =~= prev.push(ctx.deep_view()[k as int]));
                assert(r.deep_view() =~= version_ctx(self@) + ctx.deep_view().subrange(0, k + 1));
            }
            k += 1;
        }
        proof {
            assert(ctx.deep_view().subrange(0, ctx.deep_view().len() as int) =~= ctx.deep_view());
            assert(r.deep_view() =~= target);
        }
        r
    }

    /// Serializes the version: among the candidate templates that reference
    /// every required component, the one with the fewest distinct field names
    /// (earliest on ties) is rendered against `ctx` extended with every
    /// component's effective value.
    pub fn serialize(&self, patterns: &Vec<PythonFormatString>, ctx: &Vec<(String, String)>) -> (r:
        Result<String, SerializeError>)
        ensures
            r matches Ok(s) ==> serialize_of(self@, patterns.deep_view(), ctx.deep_view()) == Ok::<
                Seq<char>,
                SerializeErrorView,
            >(s@),
            r matches Err(e) ==> serialize_of(self@, patterns.deep_view(), ctx.deep_view())
                == Err::<Seq<char>, SerializeErrorView>(e@),
    {
        let ghost cands = patterns.deep_view();
        let mut best: usize = 0;
        let mut best_count: usize = 0;
        let mut have_best = false;
        let mut idx: usize = 0;
        proof {
            assert(cands.subrange(0, 0) =~= Seq::<Seq<SegmentView>>::empty());
        }
        while idx < patterns.len()
            invariant
                idx <= patterns@.len(),
                cands == patterns.deep_view(),
                cands.len() == patterns@.len(),
                match best_candidate(self@, cands.subrange(0, idx as int)) {
                    None => !have_best,
                    Some(p) => have_best && best as int == p && best_count as nat == seg_names(
                        cands[p],
                    ).len(),
                },
            decreases patterns@.len() - idx,
        {
            proof {
                assert(cands.subrange(0, idx + 1).drop_last() =~= cands.subrange(0, idx as int));
                assert(cands.subrange(0, idx + 1).last() == cands[idx as int]);
                assert(patterns[idx as int]@ == cands[idx as int]);
            }
            let qualifies = self.covers(&patterns[idx]);
            if qualifies {
                let c = patterns[idx].field_count();
                if !have_best || c < best_count {
                    best = idx;
                    best_count = c;
                    have_best = true;
                }
            }
            proof {
                let sub1 = cands.subrange(0, idx + 1);
                lemma_best_candidate_range(self@, cands.subrange(0, idx as int));
                assert(sub1.drop_last() =~= cands.subrange(0, idx as int));
                assert(forall|p: int| 0 <= p < sub1.len() ==> sub1[p] == cands[p]);
            }
            idx += 1;
        }
        proof {
            assert(cands.subrange(0, cands.len() as int) =~= cands);
        }
        if !have_best {
            return Err(SerializeError::NoQualifyingPattern);
        }
        proof {
            lemma_best_candidate_range(self@, cands);
            assert(best_candidate(self@, cands) == Some(best as int));
            assert(patterns[best as int]@ == cands[best as int]);
        }
        let rctx = self.render_ctx(ctx);
        match patterns[best].format(&rctx, false) {
            Ok(s) => Ok(s),
            Err(e) => Err(SerializeError::MissingArgument(e)),
        }
    }
}

} // verus!
