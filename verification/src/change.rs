//! A configured change to make to a file: how to parse and serialize versions
//! there, what to search for, what to put in its place, and which component
//! bumps the change applies to.

use vstd::prelude::*;
use crate::f_string::{PythonFormatString, RegexTemplate, SegmentView};
use crate::strutil::vec_contains_str;

verus! {

/// Spec-level image of a [`FileChange`].
pub struct FileChangeView {
    pub parse_version_pattern: Seq<char>,
    pub serialize_version_patterns: Seq<Seq<SegmentView>>,
    pub search: Seq<SegmentView>,
    pub replace: Seq<char>,
    pub ignore_missing_version: bool,
    pub ignore_missing_file: bool,
    pub include_bumps: Option<Seq<Seq<char>>>,
    pub exclude_bumps: Option<Seq<Seq<char>>>,
}

/// The view of an optional list of names.
pub open spec fn opt_names_view(o: &Option<Vec<String>>) -> Option<Seq<Seq<char>>> {
    match o {
        Some(v) => Some(v.deep_view()),
        None => None,
    }
}

/// A change to make to a file.
#[derive(Debug, Clone)]
pub struct FileChange {
    /// Regex used to parse versions when extracting a version from a file.
    pub parse_version_pattern: String,
    /// Format strings used to serialize versions for search/replace.
    pub serialize_version_patterns: Vec<PythonFormatString>,
    /// Search pattern template.
    pub search: RegexTemplate,
    /// Replacement template.
    pub replace: String,
    /// Whether to ignore missing version matches.
    pub ignore_missing_version: bool,
    /// Whether to ignore missing files.
    pub ignore_missing_file: bool,
    /// Optional allow-list of version components this change will bump.
    pub include_bumps: Option<Vec<String>>,
    /// Optional deny-list of version components this change will bump.
    pub exclude_bumps: Option<Vec<String>>,
}

impl View for FileChange {
    type V = FileChangeView;

    open spec fn view(&self) -> FileChangeView {
        FileChangeView {
            parse_version_pattern: self.parse_version_pattern@,
            serialize_version_patterns: self.serialize_version_patterns.deep_view(),
            search: self.search@,
            replace: self.replace@,
            ignore_missing_version: self.ignore_missing_version,
            ignore_missing_file: self.ignore_missing_file,
            include_bumps: opt_names_view(&self.include_bumps),
            exclude_bumps: opt_names_view(&self.exclude_bumps),
        }
    }
}

impl DeepView for FileChange {
    type V = FileChangeView;

    open spec fn deep_view(&self) -> FileChangeView {
        self.view()
    }
}

/// Does the optional name list hold `name`?
pub open spec fn name_listed(o: Option<Seq<Seq<char>>>, name: Seq<char>) -> bool {
    match o {
        Some(l) => l.contains(name),
        None => false,
    }
}

impl FileChange {
    /// A change whose allow-list holds every given component name and whose
    /// deny-list is empty.
    #[allow(clippy::too_many_arguments)]
    pub fn new(
        parse_version_pattern: String,
        serialize_version_patterns: Vec<PythonFormatString>,
        search: RegexTemplate,
        replace: String,
        ignore_missing_version: bool,
        ignore_missing_file: bool,
        component_names: Vec<String>,
    ) -> (r: FileChange)
        ensures
            r@ == (FileChangeView {
                parse_version_pattern: parse_version_pattern@,
                serialize_version_patterns: serialize_version_patterns.deep_view(),
                search: search@,
                replace: replace@,
                ignore_missing_version: ignore_missing_version,
                ignore_missing_file: ignore_missing_file,
                include_bumps: Some(component_names.deep_view()),
                exclude_bumps: None::<Seq<Seq<char>>>,
            }),
    {
        FileChange {
            parse_version_pattern,
            serialize_version_patterns,
            search,
            replace,
            ignore_missing_version,
            ignore_missing_file,
            include_bumps: Some(component_names),
            exclude_bumps: None,
        }
    }

    /// Returns `true` if this change applies to bumping `component`.
    pub fn will_bump_component(&self, component: &str) -> (r: bool)
        ensures
            r == name_listed(self@.include_bumps, component@),
    {
        match &self.include_bumps {
            Some(bumps) => vec_contains_str(bumps, component),
            None => false,
        }
    }

    /// Returns `true` if this change excludes bumping `component`.
    pub fn will_not_bump_component(&self, component: &str) -> (r: bool)
        ensures
            r == name_listed(self@.exclude_bumps, component@),
    {
        match &self.exclude_bumps {
            Some(bumps) => vec_contains_str(bumps, component),
            None => false,
        }
    }
}

} // verus!
