//! The change-application engine: applying an ordered list of configured
//! changes to file content, and the record of what changed.

use vstd::prelude::*;
use crate::change::{FileChange, FileChangeView};
use crate::component::ComponentView;
use crate::f_string::{
    parse_segments, render_segments, search_pattern_of, MissingArgumentError, ParseError,
    PythonFormatString, RegexTemplateError, RegexTemplateErrorView,
};
use crate::pattern::regex_replace_all;
use crate::strutil::str_eq;
use crate::version::{serialize_of, SerializeError, SerializeErrorView, Version};

verus! {

/// A failure to read or write a file, with the offending path.
#[derive(Debug, Clone)]
pub struct IoError {
    /// The path of the file the operation failed on.
    pub path: String,
    /// What went wrong, in words.
    pub message: String,
}

/// Why applying the configured changes failed.
#[derive(Debug)]
pub enum ReplaceVersionError {
    /// The target file could not be read or written.
    Io(IoError),
    /// A version had no serialized form under a change's candidate patterns.
    Serialize(SerializeError),
    /// The replacement template references a field absent from the context.
    MissingArgument(MissingArgumentError),
    /// A change's replacement text is not a well-formed template.
    InvalidFormatString(ParseError),
    /// A change's search template did not render to a valid pattern.
    RegexTemplate(RegexTemplateError),
}

/// Spec-level image of a [`ReplaceVersionError`].
pub enum ReplaceVersionErrorView {
    Io(Seq<char>, Seq<char>),
    Serialize(SerializeErrorView),
    MissingArgument(Seq<char>),
    InvalidFormatString,
    RegexTemplate(RegexTemplateErrorView),
}

impl View for ReplaceVersionError {
    type V = ReplaceVersionErrorView;

    open spec fn view(&self) -> ReplaceVersionErrorView {
        match self {
            ReplaceVersionError::Io(e) => ReplaceVersionErrorView::Io(e.path@, e.message@),
            ReplaceVersionError::Serialize(e) => ReplaceVersionErrorView::Serialize(e@),
            ReplaceVersionError::MissingArgument(e) => ReplaceVersionErrorView::MissingArgument(
                e.name@,
            ),
            ReplaceVersionError::InvalidFormatString(_) => {
                ReplaceVersionErrorView::InvalidFormatString
            },
            ReplaceVersionError::RegexTemplate(e) => ReplaceVersionErrorView::RegexTemplate(e@),
        }
    }
}

/// One applied search/replace: the rendered search pattern and the rendered
/// replacement text.
#[derive(Debug, Clone)]
pub struct Replacement {
    /// The rendered search pattern the change matched with.
    pub search: String,
    /// The literal text every match was replaced by.
    pub replace: String,
}

impl View for Replacement {
    type V = (Seq<char>, Seq<char>);

    open spec fn view(&self) -> (Seq<char>, Seq<char>) {
        (self.search@, self.replace@)
    }
}

impl DeepView for Replacement {
    type V = (Seq<char>, Seq<char>);

    open spec fn deep_view(&self) -> (Seq<char>, Seq<char>) {
        self.view()
    }
}

/// The context a change renders its search and replacement under: the
/// serialized old and new versions, then the caller's entries.
pub open spec fn change_ctx(
    cur_s: Seq<char>,
    new_s: Seq<char>,
    ctx: Seq<(Seq<char>, Seq<char>)>,
) -> Seq<(Seq<char>, Seq<char>)> {
    seq![("current_version"@, cur_s), ("new_version"@, new_s)] + ctx
}

/// What applying one change to `content` yields: the new content and the
/// (search, replace) record, or why the change could not be applied.
pub open spec fn apply_one(
    content: Seq<char>,
    ch: FileChangeView,
    cur: Seq<(Seq<char>, ComponentView)>,
    newv: Seq<(Seq<char>, ComponentView)>,
    ctx: Seq<(Seq<char>, Seq<char>)>,
) -> Result<(Seq<char>, (Seq<char>, Seq<char>)), ReplaceVersionErrorView> {
    match serialize_of(cur, ch.serialize_version_patterns, ctx) {
        Err(e) => Err(ReplaceVersionErrorView::Serialize(e)),
        Ok(cur_s) => match serialize_of(newv, ch.serialize_version_patterns, ctx) {
            Err(e) => Err(ReplaceVersionErrorView::Serialize(e)),
            Ok(new_s) => {
                let ectx = change_ctx(cur_s, new_s, ctx);
                match search_pattern_of(ch.search, ectx) {
                    Err(e) => Err(ReplaceVersionErrorView::RegexTemplate(e)),
                    Ok(pat) => match parse_segments(ch.replace) {
                        None => Err(ReplaceVersionErrorView::InvalidFormatString),
                        Some(rsegs) => match render_segments(rsegs, ectx, false) {
                            Err(n) => Err(ReplaceVersionErrorView::MissingArgument(n)),
                            Ok(rep) => Ok((regex_replace_all(pat, content, rep), (pat, rep))),
                        },
                    },
                }
            },
        },
    }
}

/// What applying an ordered list of changes yields: each change's output
/// content is the next change's input, and one (search, replace) record is
/// kept per change; the first failure stops the run.
pub open spec fn apply_changes(
    content: Seq<char>,
    changes: Seq<FileChangeView>,
    cur: Seq<(Seq<char>, ComponentView)>,
    newv: Seq<(Seq<char>, ComponentView)>,
    ctx: Seq<(Seq<char>, Seq<char>)>,
) -> Result<(Seq<char>, Seq<(Seq<char>, Seq<char>)>), ReplaceVersionErrorView>
    decreases changes.len(),
{
    if changes.len() == 0 {
        Ok((content, Seq::empty()))
    } else {
        match apply_one(content, changes[0], cur, newv, ctx) {
            Err(e) => Err(e),
            Ok((c1, rec)) => match apply_changes(c1, changes.drop_first(), cur, newv, ctx) {
                Err(e) => Err(e),
                Ok((c2, recs)) => Ok((c2, seq![rec] + recs)),
            },
        }
    }
}

proof fn lemma_apply_changes_concat(
    content: Seq<char>,
    a: Seq<FileChangeView>,
    b: Seq<FileChangeView>,
    cur: Seq<(Seq<char>, ComponentView)>,
    newv: Seq<(Seq<char>, ComponentView)>,
    ctx: Seq<(Seq<char>, Seq<char>)>,
)
    ensures
        apply_changes(content, a + b, cur, newv, ctx) == (match apply_changes(
            content,
            a,
            cur,
            newv,
            ctx,
        ) {
            Err(e) => Err::<(Seq<char>, Seq<(Seq<char>, Seq<char>)>), ReplaceVersionErrorView>(e),
            Ok((c1, r1)) => match apply_changes(c1, b, cur, newv, ctx) {
                Err(e) => Err::<(Seq<char>, Seq<(Seq<char>, Seq<char>)>), ReplaceVersionErrorView>(
                    e,
                ),
                Ok((c2, r2)) => Ok::<
                    (Seq<char>, Seq<(Seq<char>, Seq<char>)>),
                    ReplaceVersionErrorView,
                >((c2, r1 + r2)),
            },
        }),
    decreases a.len(),
{
    if a.len() == 0 {
        assert(a + b =~= b);
        match apply_changes(content, b, cur, newv, ctx) {
            Err(_) => {},
            Ok((c2, r2)) => {
                assert(Seq::<(Seq<char>, Seq<char>)>::empty() + r2 =~= r2);
            },
        }
    } else {
        assert((a + b)[0] == a[0]);
        assert((a + b).drop_first() =~= a.drop_first() + b);
        match apply_one(content, a[0], cur, newv, ctx) {
            Err(_) => {},
            Ok((c1, rec0)) => {
                lemma_apply_changes_concat(c1, a.drop_first(), b, cur, newv, ctx);
                match apply_changes(c1, a.drop_first(), cur, newv, ctx) {
                    Err(_) => {},
                    Ok((c2, r1)) => {
                        match apply_changes(c2, b, cur, newv, ctx) {
                            Err(_) => {},
                            Ok((c3, r2)) => {
                                assert(seq![rec0] + (r1 + r2) =~= (seq![rec0] + r1) + r2);
                            },
                        }
                    },
                }
            },
        }
    }
}

/// Serializes both versions under a change's candidate patterns, renders its
/// search and replacement against the context extended with them, and
/// replaces every non-overlapping match in the running content; changes apply
/// in order, each one's output the next one's input. No error is raised when
/// a search matches nothing. Returns the before/after content and one
/// [`Replacement`] record per change.
#[verifier::rlimit(60)]
pub fn replace_version(
    before: &str,
    changes: &Vec<FileChange>,
    current_version: &Version,
    new_version: &Version,
    ctx: &Vec<(String, String)>,
) -> (r: Result<Modification, ReplaceVersionError>)
    ensures
        r matches Ok(m) ==> m.before@ == before@ && apply_changes(
            before@,
            changes.deep_view(),
            current_version@,
            new_version@,
            ctx.deep_view(),
        ) == Ok::<(Seq<char>, Seq<(Seq<char>, Seq<char>)>), ReplaceVersionErrorView>(
            (m.after@, m.replacements.deep_view()),
        ),
        r matches Err(e) ==> apply_changes(
            before@,
            changes.deep_view(),
            current_version@,
            new_version@,
            ctx.deep_view(),
        ) == Err::<(Seq<char>, Seq<(Seq<char>, Seq<char>)>), ReplaceVersionErrorView>(e@),
{
    let ghost chs = changes.deep_view();
    let ghost ctxv = ctx.deep_view();
    let mut after = before.to_owned();
    let mut replacements: Vec<Replacement> = Vec::new();
    let mut i: usize = 0;
    proof {
        assert(chs.subrange(0, 0) =~= Seq::<FileChangeView>::empty());
        assert(replacements.deep_view() =~= Seq::<(Seq<char>, Seq<char>)>::empty());
    }
    while i < changes.len()
        invariant
            chs == changes.deep_view(),
            ctxv == ctx.deep_view(),
            chs.len() == changes@.len(),
            i <= changes@.len(),
            apply_changes(before@, chs.subrange(0, i as int), current_version@, new_version@, ctxv)
                == Ok::<(Seq<char>, Seq<(Seq<char>, Seq<char>)>), ReplaceVersionErrorView>(
                (after@, replacements.deep_view()),
            ),
        decreases changes@.len() - i,
    {
        let change = &changes[i];
        let ghost ch = chs[i as int];
        let ghost after0 = after@;
        proof {
            assert(change@ == ch);
            // The whole list splits as the done prefix, this change, the rest.
            assert(chs =~= chs.subrange(0, i as int) + chs.skip(i as int));
            lemma_apply_changes_concat(
                before@,
                chs.subrange(0, i as int),
                chs.skip(i as int),
                current_version@,
                new_version@,
                ctxv,
            );
            assert(chs.skip(i as int)[0] == ch);
            assert(chs.skip(i as int).drop_first() =~= chs.skip(i + 1));
        }
        let current_version_serialized = match current_version.serialize(
            &change.serialize_version_patterns,
            ctx,
        ) {
            Ok(s) => s,
            Err(e) => {
                proof {
                    assert(apply_one(after0, ch, current_version@, new_version@, ctxv)
                        == Err::<(Seq<char>, (Seq<char>, Seq<char>)), ReplaceVersionErrorView>(
                        ReplaceVersionErrorView::Serialize(e@),
                    ));
                }
                return Err(ReplaceVersionError::Serialize(e));
            },
        };
        let ghost cur_sv = current_version_serialized@;
        let new_version_serialized = match new_version.serialize(
            &change.serialize_version_patterns,
            ctx,
        ) {
            Ok(s) => s,
            Err(e) => {
                proof {
                    assert(apply_one(after0, ch, current_version@, new_version@, ctxv)
                        == Err::<(Seq<char>, (Seq<char>, Seq<char>)), ReplaceVersionErrorView>(
                        ReplaceVersionErrorView::Serialize(e@),
                    ));
                }
                return Err(ReplaceVersionError::Serialize(e));
            },
        };
        let ghost new_sv = new_version_serialized@;
        let mut ectx: Vec<(String, String)> = Vec::new();
        ectx.push(("current_version".to_owned(), current_version_serialized));
        ectx.push(("new_version".to_owned(), new_version_serialized));
        let ghost base = ectx.deep_view();
        proof {
            assert(base =~= seq![("current_version"@, cur_sv), ("new_version"@, new_sv)]);
        }
        let mut k: usize = 0;
        proof {
            assert(ectx.deep_view() =~= base + ctxv.subrange(0, 0));
        }
        while k < ctx.len()
            invariant
                ctxv == ctx.deep_view(),
                k <= ctx@.len(),
                ctxv.len() == ctx@.len(),
                ectx.deep_view() =~= base + ctxv.subrange(0, k as int),
            decreases ctx@.len() - k,
        {
            let ghost prev = ectx.deep_view();
            ectx.push((ctx[k].0.clone(), ctx[k].1.clone()));
            proof {
                assert(ctxv[k as int] == (ctx@[k as int].0@, ctx@[k as int].1@));
                assert(ectx.deep_view() =~= prev.push(ctxv[k as int]));
                assert(ectx.deep_view() =~= base + ctxv.subrange(0, k + 1));
            }
            k += 1;
        }
        let ghost ectxv = change_ctx(cur_sv, new_sv, ctxv);
        proof {
            assert(ctxv.subrange(0, ctxv.len() as int) =~= ctxv);
            assert(ectx.deep_view() =~= ectxv);
        }
        let search_regex = match change.search.format(&ectx) {
            Ok(p) => p,
            Err(e) => {
                proof {
                    assert(apply_one(after0, ch, current_version@, new_version@, ctxv)
                        == Err::<(Seq<char>, (Seq<char>, Seq<char>)), ReplaceVersionErrorView>(
                        ReplaceVersionErrorView::RegexTemplate(e@),
                    ));
                }
                return Err(ReplaceVersionError::RegexTemplate(e));
            },
        };
        let replace = match PythonFormatString::parse(change.replace.as_str()) {
            Ok(f) => f,
            Err(e) => {
                proof {
                    assert(apply_one(after0, ch, current_version@, new_version@, ctxv)
                        == Err::<(Seq<char>, (Seq<char>, Seq<char>)), ReplaceVersionErrorView>(
                        ReplaceVersionErrorView::InvalidFormatString,
                    ));
                }
                return Err(ReplaceVersionError::InvalidFormatString(e));
            },
        };
        let replacement = match replace.format(&ectx, false) {
            Ok(s) => s,
            Err(e) => {
                proof {
                    assert(apply_one(after0, ch, current_version@, new_version@, ctxv)
                        == Err::<(Seq<char>, (Seq<char>, Seq<char>)), ReplaceVersionErrorView>(
                        ReplaceVersionErrorView::MissingArgument(e.name@),
                    ));
                }
                return Err(ReplaceVersionError::MissingArgument(e));
            },
        };
        after = search_regex.replace_all(after.as_str(), replacement.as_str());
        let ghost rec = (search_regex.src(), replacement@);
        proof {
            assert(apply_one(after0, ch, current_version@, new_version@, ctxv) == Ok::<
                (Seq<char>, (Seq<char>, Seq<char>)),
                ReplaceVersionErrorView,
            >((after@, rec)));
        }
        let ghost prev_recs = replacements.deep_view();
        replacements.push(
            Replacement { search: search_regex.as_str().to_owned(), replace: replacement },
        );
        proof {
            assert(replacements.deep_view() =~= prev_recs.push(rec));
            lemma_apply_changes_concat(
                before@,
                chs.subrange(0, i as int),
                seq![ch],
                current_version@,
                new_version@,
                ctxv,
            );
            assert(seq![ch][0] == ch);
            assert(seq![ch].drop_first() =~= Seq::<FileChangeView>::empty());
            assert(apply_changes(after@, seq![ch].drop_first(), current_version@, new_version@, ctxv)
                == Ok::<(Seq<char>, Seq<(Seq<char>, Seq<char>)>), ReplaceVersionErrorView>(
                (after@, Seq::empty()),
            ));
            assert(apply_changes(after0, seq![ch], current_version@, new_version@, ctxv) == Ok::<
                (Seq<char>, Seq<(Seq<char>, Seq<char>)>),
                ReplaceVersionErrorView,
            >((after@, seq![rec] + Seq::<(Seq<char>, Seq<char>)>::empty())));
            assert(seq![rec] + Seq::<(Seq<char>, Seq<char>)>::empty() =~= seq![rec]);
            assert(chs.subrange(0, i as int) + seq![ch] =~= chs.subrange(0, i + 1));
            assert(prev_recs + seq![rec] =~= prev_recs.push(rec));
        }
        i += 1;
    }
    proof {
        assert(chs.subrange(0, chs.len() as int) =~= chs);
    }
    Ok(Modification { before: before.to_owned(), after, replacements })
}

/// The before/after content of one file, with one record per applied change.
#[derive(Debug)]
pub struct Modification {
    /// The content before the changes.
    pub before: String,
    /// The content after the changes.
    pub after: String,
    /// One record per applied change, in order.
    pub replacements: Vec<Replacement>,
}

/// Does `sub` occur contiguously in `s`?
pub open spec fn has_substring(s: Seq<char>, sub: Seq<char>) -> bool {
    exists|i: int| 0 <= i <= s.len() - sub.len() && #[trigger] s.subrange(i, i + sub.len()) == sub
}

/// The view of an optional path.
pub open spec fn opt_path_view(o: Option<&str>) -> Option<Seq<char>> {
    match o {
        Some(p) => Some(p@),
        None => None,
    }
}

/// The label of one side of a diff: the path with a side marker when a path
/// is given, the bare side marker otherwise.
pub open spec fn diff_label(path: Option<Seq<char>>, left: bool) -> Seq<char> {
    match path {
        Some(p) => p + (if left {
            " (before)"@
        } else {
            " (after)"@
        }),
        None => if left {
            "before"@
        } else {
            "after"@
        },
    }
}

/// Relies on `similar_asserts::SimpleDiff::from_str` and its `Display`
/// rendering: for unequal sides it writes a header that names both labels
/// (each label's characters stand contiguously, whatever styling surrounds
/// them), so the text is non-empty and holds both labels.
#[verifier::external_body]
fn render_diff(before: &str, after: &str, left_label: &str, right_label: &str) -> (r: String)
    requires
        before@ != after@,
    ensures
        r@.len() > 0,
        has_substring(r@, left_label@),
        has_substring(r@, right_label@),
{
    let diff = similar_asserts::SimpleDiff::from_str(before, after, left_label, right_label);
    format!("{diff}")
}

impl Modification {
    /// `None` exactly when the changes left the content unchanged; otherwise
    /// a human-readable rendering of the before/after contents that names
    /// both sides, labeled with `path` when given.
    pub fn diff(&self, path: Option<&str>) -> (r: Option<String>)
        ensures
            (r is Some) == (self.before@ != self.after@),
            r matches Some(d) ==> d@.len() > 0 && has_substring(
                d@,
                diff_label(opt_path_view(path), true),
            ) && has_substring(d@, diff_label(opt_path_view(path), false)),
    {
        if str_eq(self.before.as_str(), self.after.as_str()) {
            return None;
        }
        let left = match path {
            Some(p) => {
                let mut s = p.to_owned();
                s.append(" (before)");
                s
            },
            None => String::from_str("before"),
        };
        let right = match path {
            Some(p) => {
                let mut s = p.to_owned();
                s.append(" (after)");
                s
            },
            None => String::from_str("after"),
        };
        Some(
            render_diff(self.before.as_str(), self.after.as_str(), left.as_str(), right.as_str()),
        )
    }
}

/// Do all the changes tolerate a missing target file?
pub fn all_ignore_missing_file(changes: &Vec<FileChange>) -> (r: bool)
    ensures
        r == forall|i: int|
            0 <= i < changes.deep_view().len() ==> (#[trigger] changes.deep_view()[i])
                .ignore_missing_file,
{
    let mut i: usize = 0;
    while i < changes.len()
        invariant
            i <= changes@.len(),
            changes.deep_view().len() == changes@.len(),
            forall|j: int| 0 <= j < i ==> (#[trigger] changes.deep_view()[j]).ignore_missing_file,
        decreases changes@.len() - i,
    {
        if !changes[i].ignore_missing_file {
            proof {
                assert(!changes.deep_view()[i as int].ignore_missing_file);
            }
            return false;
        }
        i += 1;
    }
    true
}

} // verus!
