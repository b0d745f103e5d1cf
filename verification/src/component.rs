//! A single named version segment: its configuration, its resolved value, and
//! its bump/reset state machine.

use vstd::prelude::*;
use crate::digits::{checked_dec_succ, dec_succ, is_digits};
use crate::strutil::str_eq;

verus! {

/// Spec-level image of a [`VersionComponentSpec`].
pub struct ComponentSpecView {
    pub values: Seq<Seq<char>>,
    pub first_value: Option<Seq<char>>,
    pub optional_value: Option<Seq<char>>,
}

/// Spec-level image of a [`Component`]: the raw value it was built from (or
/// `None` when omitted) and its configuration.
pub struct ComponentView {
    pub raw: Option<Seq<char>>,
    pub config: ComponentSpecView,
}

/// The view of an optional owned string.
pub open spec fn opt_str_view(o: Option<String>) -> Option<Seq<char>> {
    match o {
        Some(s) => Some(s@),
        None => None,
    }
}

/// Configuration for one version component: an optional enumeration of
/// allowed values, an optional reset value, and an optional value treated as
/// "absent" when deciding which components a serialized form must show.
#[derive(Clone, Debug)]
pub struct VersionComponentSpec {
    /// Allowed discrete values, in bump order; empty means the component is
    /// numeric.
    pub values: Vec<String>,
    /// Value the component resets to; defaults to the first of `values`, or
    /// `"0"`.
    pub first_value: Option<String>,
    /// Value treated as absent/default for display purposes.
    pub optional_value: Option<String>,
}

impl View for VersionComponentSpec {
    type V = ComponentSpecView;

    open spec fn view(&self) -> ComponentSpecView {
        ComponentSpecView {
            values: self.values.deep_view(),
            first_value: opt_str_view(self.first_value),
            optional_value: opt_str_view(self.optional_value),
        }
    }
}

impl DeepView for VersionComponentSpec {
    type V = ComponentSpecView;

    open spec fn deep_view(&self) -> ComponentSpecView {
        self.view()
    }
}

impl Default for VersionComponentSpec {
    /// A numeric component: no enumerated values, no explicit reset value.
    fn default() -> (r: Self)
        ensures
            r@.values.len() == 0,
            r@.first_value is None,
            r@.optional_value is None,
    {
        VersionComponentSpec { values: Vec::new(), first_value: None, optional_value: None }
    }
}

/// The value an omitted component resolves to: `first_value`, else
/// `optional_value`, else the first enumerated value, else `"0"`.
pub open spec fn default_value_of(cs: ComponentSpecView) -> Seq<char> {
    match cs.first_value {
        Some(v) => v,
        None => match cs.optional_value {
            Some(v) => v,
            None => if cs.values.len() > 0 {
                cs.values[0]
            } else {
                seq!['0']
            },
        },
    }
}

/// The value a component resets to when a more significant component is
/// bumped: `first_value`, else the first enumerated value, else `"0"`. Unlike
/// [`default_value_of`] this ignores `optional_value`, which governs display,
/// not reset.
pub open spec fn reset_value_of(cs: ComponentSpecView) -> Seq<char> {
    match cs.first_value {
        Some(v) => v,
        None => if cs.values.len() > 0 {
            cs.values[0]
        } else {
            seq!['0']
        },
    }
}

/// The value that marks this component as not required in a serialized form:
/// its `optional_value` if configured, else its reset value.
pub open spec fn optional_marker_of(cs: ComponentSpecView) -> Seq<char> {
    match cs.optional_value {
        Some(v) => v,
        None => reset_value_of(cs),
    }
}

/// The effective value of a component: its raw value when explicit, else the
/// configuration's default.
pub open spec fn effective_value_of(c: ComponentView) -> Seq<char> {
    match c.raw {
        Some(v) => v,
        None => default_value_of(c.config),
    }
}

/// Why a bump failed.
#[derive(Clone, Copy, Debug, PartialEq, Eq, Structural)]
pub enum BumpError {
    /// An enumerated component is already at its last value (or holds a value
    /// outside its enumeration).
    MaxValueReached,
    /// A numeric component's effective value is not a digit string.
    InvalidNumber,
    /// The named component is not part of the version's schema.
    MissingComponent,
}

/// The first index at which `x` occurs in `vs`.
pub open spec fn seq_index_of(vs: Seq<Seq<char>>, x: Seq<char>) -> Option<int>
    decreases vs.len(),
{
    if vs.len() == 0 {
        None
    } else if vs[0] == x {
        Some(0)
    } else {
        match seq_index_of(vs.drop_first(), x) {
            Some(i) => Some(i + 1),
            None => None,
        }
    }
}

pub proof fn lemma_seq_index_of(vs: Seq<Seq<char>>, x: Seq<char>)
    ensures
        match seq_index_of(vs, x) {
            Some(i) => 0 <= i < vs.len() && vs[i] == x && forall|j: int|
                0 <= j < i ==> vs[j] != x,
            None => forall|j: int| 0 <= j < vs.len() ==> vs[j] != x,
        },
    decreases vs.len(),
{
    if vs.len() > 0 && vs[0] != x {
        let tail = vs.drop_first();
        lemma_seq_index_of(tail, x);
        assert(forall|j: int| 0 <= j < tail.len() ==> #[trigger] tail[j] == vs[j + 1]);
        match seq_index_of(tail, x) {
            Some(i) => {
                assert(vs[i + 1] == tail[i]);
                assert forall|j: int| 0 <= j < i + 1 implies vs[j] != x by {
                    if j > 0 {
                        assert(tail[j - 1] == vs[j]);
                    }
                }
            },
            None => {
                assert forall|j: int| 0 <= j < vs.len() implies vs[j] != x by {
                    if j > 0 {
                        assert(tail[j - 1] == vs[j]);
                    }
                }
            },
        }
    }
}

/// What bumping a component yields: the next enumerated value, the decimal
/// successor, or the error that applies.
pub open spec fn component_bump_of(c: ComponentView) -> Result<Seq<char>, BumpError> {
    let v = effective_value_of(c);
    if c.config.values.len() > 0 {
        match seq_index_of(c.config.values, v) {
            Some(i) => if i + 1 < c.config.values.len() {
                Ok(c.config.values[i + 1])
            } else {
                Err(BumpError::MaxValueReached)
            },
            None => Err(BumpError::MaxValueReached),
        }
    } else {
        if v.len() > 0 && is_digits(v) {
            Ok(dec_succ(v))
        } else {
            Err(BumpError::InvalidNumber)
        }
    }
}

/// A version component: its configuration together with the value it was
/// parsed or built with (`None` when the component was omitted).
#[derive(Clone, Debug)]
pub struct Component {
    raw: Option<String>,
    config: VersionComponentSpec,
}

impl View for Component {
    type V = ComponentView;

    closed spec fn view(&self) -> ComponentView {
        ComponentView { raw: opt_str_view(self.raw), config: self.config@ }
    }
}

impl DeepView for Component {
    type V = ComponentView;

    open spec fn deep_view(&self) -> ComponentView {
        self.view()
    }
}

impl VersionComponentSpec {
    /// An equal copy of this configuration.
    pub fn duplicate(&self) -> (r: Self)
        ensures
            r@ == self@,
    {
        let mut values: Vec<String> = Vec::new();
        let mut i: usize = 0;
        while i < self.values.len()
            invariant
                i <= self.values@.len(),
                values@.len() == i,
                forall|j: int| 0 <= j < i ==> values@[j]@ == #[trigger] self.values@[j]@,
            decreases self.values@.len() - i,
        {
            values.push(self.values[i].clone());
            i += 1;
        }
        let first_value = match &self.first_value {
            Some(s) => Some(s.clone()),
            None => None,
        };
        let optional_value = match &self.optional_value {
            Some(s) => Some(s.clone()),
            None => None,
        };
        let r = VersionComponentSpec { values, first_value, optional_value };
        proof {
            assert(r@.values =~= self@.values);
        }
        r
    }

    /// The value an omitted component of this configuration resolves to.
    pub fn default_value(&self) -> (r: &str)
        ensures
            r@ == default_value_of(self@),
    {
        proof {
            reveal_strlit("0");
            assert("0"@ =~= seq!['0']);
        }
        match &self.first_value {
            Some(s) => s.as_str(),
            None => match &self.optional_value {
                Some(s) => s.as_str(),
                None => if self.values.len() > 0 {
                    self.values[0].as_str()
                } else {
                    "0"
                },
            },
        }
    }

    /// The value a component of this configuration resets to.
    pub fn reset_value(&self) -> (r: String)
        ensures
            r@ == reset_value_of(self@),
    {
        proof {
            reveal_strlit("0");
            assert("0"@ =~= seq!['0']);
        }
        match &self.first_value {
            Some(s) => s.clone(),
            None => if self.values.len() > 0 {
                self.values[0].clone()
            } else {
                String::from_str("0")
            },
        }
    }

    /// The value that marks a component of this configuration as not required
    /// in a serialized form.
    pub fn optional_marker(&self) -> (r: String)
        ensures
            r@ == optional_marker_of(self@),
    {
        match &self.optional_value {
            Some(s) => s.clone(),
            None => self.reset_value(),
        }
    }
}

impl Component {
    /// A component with the given raw value (`None` for omitted) and
    /// configuration.
    pub fn new(raw: Option<&str>, config: VersionComponentSpec) -> (r: Component)
        ensures
            r@.raw == match raw {
                Some(s) => Some(s@),
                None => None::<Seq<char>>,
            },
            r@.config == config@,
    {
        let owned = match raw {
            Some(s) => Some(s.to_owned()),
            None => None,
        };
        Component { raw: owned, config }
    }

    /// An equal copy of this component.
    pub fn duplicate(&self) -> (r: Self)
        ensures
            r@ == self@,
    {
        let raw = match &self.raw {
            Some(s) => Some(s.clone()),
            None => None,
        };
        Component { raw, config: self.config.duplicate() }
    }

    /// The component's configuration.
    pub fn config(&self) -> (r: &VersionComponentSpec)
        ensures
            r@ == self@.config,
    {
        &self.config
    }

    /// The effective value: the raw value when explicit, else the
    /// configuration's default.
    pub fn effective(&self) -> (r: &str)
        ensures
            r@ == effective_value_of(self@),
    {
        match &self.raw {
            Some(s) => s.as_str(),
            None => self.config.default_value(),
        }
    }

    /// The effective value, always present.
    pub fn value(&self) -> (r: Option<&str>)
        ensures
            r matches Some(v) && v@ == effective_value_of(self@),
    {
        Some(self.effective())
    }

    /// The component reset to its first value; ignores `optional_value`.
    pub fn first(&self) -> (r: Component)
        ensures
            r@.config == self@.config,
            r@.raw == Some(reset_value_of(self@.config)),
    {
        Component { raw: Some(self.config.reset_value()), config: self.config.duplicate() }
    }

    /// The component advanced to its next value: the next enumerated value
    /// when `values` is configured (`MaxValueReached` at or beyond the last),
    /// else the decimal successor of the effective value (`InvalidNumber` when
    /// that value is not a digit string).
    pub fn bump(&self) -> (r: Result<Component, BumpError>)
        ensures
            r matches Ok(c) ==> component_bump_of(self@) matches Ok(v) && c@.raw == Some(v)
                && c@.config == self@.config,
            r matches Err(e) ==> component_bump_of(self@) == Err::<Seq<char>, BumpError>(e),
    {
        let n = self.config.values.len();
        if n > 0 {
            let v = self.effective();
            let mut i: usize = 0;
            proof {
                lemma_seq_index_of(self@.config.values, v@);
            }
            while i < n
                invariant
                    n == self.config.values@.len(),
                    i <= n,
                    v@ == effective_value_of(self@),
                    forall|j: int| 0 <= j < i ==> self@.config.values[j] != v@,
                decreases n - i,
            {
                if str_eq(v, self.config.values[i].as_str()) {
                    proof {
                        lemma_seq_index_of(self@.config.values, v@);
                        assert(self@.config.values[i as int] == v@);
                        assert(seq_index_of(self@.config.values, v@) == Some(i as int));
                    }
                    if i + 1 < n {
                        return Ok(Component {
                            raw: Some(self.config.values[i + 1].clone()),
                            config: self.config.duplicate(),
                        });
                    } else {
                        return Err(BumpError::MaxValueReached);
                    }
                }
                i += 1;
            }
            proof {
                lemma_seq_index_of(self@.config.values, v@);
            }
            Err(BumpError::MaxValueReached)
        } else {
            match checked_dec_succ(self.effective()) {
                Some(t) => Ok(Component { raw: Some(t), config: self.config.duplicate() }),
                None => Err(BumpError::InvalidNumber),
            }
        }
    }
}

} // verus!
