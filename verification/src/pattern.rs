//! Compiled search patterns. Matching, capturing and substitution are done by
//! the `regex` crate behind a small set of trusted declarations; everything
//! that feeds text into them or consumes their results is verified.

use vstd::prelude::*;
use crate::component::opt_str_view;

verus! {

#[verifier::external_type_specification]
#[verifier::external_body]
pub struct ExRegex(regex::Regex);

/// Whether `pattern` compiles as a regular expression, i.e. whether
/// `regex::Regex::new` returns `Ok` for it.
pub uninterp spec fn regex_compiles(pattern: Seq<char>) -> bool;

/// Whether the compiled `pattern` matches anywhere in `text`, i.e. whether
/// `regex::Regex::captures` returns `Some` for it.
pub uninterp spec fn regex_matches(pattern: Seq<char>, text: Seq<char>) -> bool;

/// What the capture group named `group` captures in the leftmost match of
/// `pattern` in `text`, i.e. what `regex::Captures::name` returns there.
pub uninterp spec fn regex_capture(
    pattern: Seq<char>,
    text: Seq<char>,
    group: Seq<char>,
) -> Option<Seq<char>>;

/// `text` with every non-overlapping match of `pattern` replaced by the
/// literal `replacement`, i.e. what `regex::Regex::replace_all` returns.
pub uninterp spec fn regex_replace_all(
    pattern: Seq<char>,
    text: Seq<char>,
    replacement: Seq<char>,
) -> Seq<char>;

/// The characters the `regex` crate treats as meta characters when escaping.
pub open spec fn is_regex_meta(c: char) -> bool {
    c == '\\' || c == '.' || c == '+' || c == '*' || c == '?' || c == '(' || c == ')' || c == '|'
        || c == '[' || c == ']' || c == '{' || c == '}' || c == '^' || c == '$' || c == '#'
        || c == '&' || c == '-' || c == '~'
}

/// `s` with a backslash inserted before every meta character.
pub open spec fn regex_escaped(s: Seq<char>) -> Seq<char>
    decreases s.len(),
{
    if s.len() == 0 {
        Seq::empty()
    } else {
        regex_escaped(s.drop_last()) + (if is_regex_meta(s.last()) {
            seq!['\\', s.last()]
        } else {
            seq![s.last()]
        })
    }
}

/// Relies on `regex::escape` (`regex_syntax::escape`): it copies the string,
/// putting a backslash before exactly the characters its
/// `is_meta_character` lists, which are those of [`is_regex_meta`].
#[verifier::external_body]
pub(crate) fn regex_escape(s: &str) -> (r: String)
    ensures
        r@ == regex_escaped(s@),
{
    regex::escape(s)
}

/// A compiled regular expression, kept together with the pattern text it was
/// compiled from; contracts speak of the pattern text.
pub struct CompiledPattern {
    source: String,
    regex: regex::Regex,
}

impl CompiledPattern {
    /// The pattern text this value was compiled from.
    pub closed spec fn src(&self) -> Seq<char> {
        self.source@
    }

    /// Relies on `regex::Regex::new`: `Some` exactly when the pattern
    /// compiles; the result keeps the pattern text unchanged.
    #[verifier::external_body]
    pub fn new(pattern: &str) -> (r: Option<CompiledPattern>)
        ensures
            (r is Some) == regex_compiles(pattern@),
            r matches Some(p) ==> p.src() == pattern@,
    {
        match regex::Regex::new(pattern) {
            Ok(regex) => Some(CompiledPattern { source: pattern.to_owned(), regex }),
            Err(_) => None,
        }
    }

    /// The pattern text.
    pub fn as_str(&self) -> (r: &str)
        ensures
            r@ == self.src(),
    {
        self.source.as_str()
    }

    /// Relies on `regex::Regex::captures` and `regex::Captures::name`: `None`
    /// when the pattern matches nowhere in `text`; otherwise what the group
    /// named `group` captured in the leftmost match (`None` inside when the
    /// group did not participate in the match).
    #[verifier::external_body]
    pub(crate) fn capture_group(&self, text: &str, group: &str) -> (r: Option<Option<String>>)
        ensures
            (r is Some) == regex_matches(self.src(), text@),
            r matches Some(g) ==> opt_str_view(g) == regex_capture(self.src(), text@, group@),
    {
        self.regex.captures(text).map(|caps| caps.name(group).map(|m| m.as_str().to_owned()))
    }

    /// Relies on `regex::Regex::replace_all` with `regex::NoExpand`: every
    /// non-overlapping match of the pattern in `text`, replaced by
    /// `replacement` taken literally.
    #[verifier::external_body]
    pub(crate) fn replace_all(&self, text: &str, replacement: &str) -> (r: String)
        ensures
            r@ == regex_replace_all(self.src(), text@, replacement@),
    {
        self.regex.replace_all(text, regex::NoExpand(replacement)).into_owned()
    }
}

} // verus!
