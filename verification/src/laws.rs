//! General properties of the component and version state machines, stated
//! and proved over the same spec functions the executable contracts use.

use vstd::prelude::*;
use crate::component::{
    component_bump_of, effective_value_of, reset_value_of, seq_index_of, BumpError,
    ComponentSpecView, ComponentView,
};
use crate::f_string::{seg_names, SegmentView};
use crate::version::{best_candidate, bump_view, covers_required, key_index_of};

verus! {

/// A component with no enumerated values, no reset value and no optional
/// marker resolves, when omitted, to `"0"`.
pub proof fn lemma_omitted_component_defaults_to_zero(cs: ComponentSpecView)
    requires
        cs.values.len() == 0,
        cs.first_value is None,
        cs.optional_value is None,
    ensures
        effective_value_of(ComponentView { raw: None, config: cs }) == seq!['0'],
{
}

proof fn lemma_index_of_distinct(vs: Seq<Seq<char>>, i: int)
    requires
        vs.no_duplicates(),
        0 <= i < vs.len(),
    ensures
        seq_index_of(vs, vs[i]) == Some(i),
{
    crate::component::lemma_seq_index_of(vs, vs[i]);
    match seq_index_of(vs, vs[i]) {
        Some(j) => {
            if i != j {
                assert(vs[i] == vs[j]);
            }
        },
        None => {
            assert(vs[i] != vs[i]);
        },
    }
}

/// Bumping an enumerated component holding the distinct value `values[i]`
/// yields `values[i + 1]` below the last index, and fails with
/// `MaxValueReached` at the last index.
pub proof fn lemma_enumerated_bump_steps(cs: ComponentSpecView, i: int)
    requires
        cs.values.no_duplicates(),
        0 <= i < cs.values.len(),
    ensures
        i + 1 < cs.values.len() ==> component_bump_of(
            ComponentView { raw: Some(cs.values[i]), config: cs },
        ) == Ok::<Seq<char>, BumpError>(cs.values[i + 1]),
        i + 1 == cs.values.len() ==> component_bump_of(
            ComponentView { raw: Some(cs.values[i]), config: cs },
        ) == Err::<Seq<char>, BumpError>(BumpError::MaxValueReached),
{
    lemma_index_of_distinct(cs.values, i);
}

/// What a component resets to depends on its configuration alone — the reset
/// value of a component holding any explicit value `x` is `first_value` if
/// set, else the first enumerated value, else `"0"`.
pub proof fn lemma_reset_independent_of_value(cs: ComponentSpecView, x: Seq<char>)
    ensures
        reset_value_of(ComponentView { raw: Some(x), config: cs }.config) == (
        match cs.first_value {
            Some(f) => f,
            None => if cs.values.len() > 0 {
                cs.values[0]
            } else {
                seq!['0']
            },
        }),
{
}

/// The serialization selection is optimal: the selected candidate references
/// every required component, and among such candidates none references fewer
/// distinct field names — nor, at the same count, stands earlier. When no
/// candidate covers the required components, none is selected.
pub proof fn lemma_best_candidate_optimal(
    v: Seq<(Seq<char>, ComponentView)>,
    cands: Seq<Seq<SegmentView>>,
)
    ensures
        match best_candidate(v, cands) {
            Some(i) => 0 <= i < cands.len() && covers_required(v, cands[i]) && forall|j: int|
                0 <= j < cands.len() && covers_required(v, #[trigger] cands[j]) ==> seg_names(
                    cands[i],
                ).len() < seg_names(cands[j]).len() || (seg_names(cands[i]).len() == seg_names(
                    cands[j],
                ).len() && i <= j),
            None => forall|j: int|
                0 <= j < cands.len() ==> !covers_required(v, #[trigger] cands[j]),
        },
    decreases cands.len(),
{
    if cands.len() > 0 {
        let front = cands.drop_last();
        let last = cands.len() - 1;
        lemma_best_candidate_optimal(v, front);
        assert(forall|j: int| 0 <= j < front.len() ==> #[trigger] front[j] == cands[j]);
        match best_candidate(v, cands) {
            Some(i) => {
                assert(covers_required(v, cands[i])) by {
                    if i < last {
                        assert(front[i] == cands[i]);
                    }
                }
                assert forall|j: int|
                    0 <= j < cands.len() && covers_required(v, #[trigger] cands[j]) implies
                    seg_names(cands[i]).len() < seg_names(cands[j]).len() || (seg_names(
                        cands[i],
                    ).len() == seg_names(cands[j]).len() && i <= j) by {
                    if j < last {
                        assert(front[j] == cands[j]);
                    }
                }
            },
            None => {
                assert forall|j: int| 0 <= j < cands.len() implies !covers_required(
                    v,
                    #[trigger] cands[j],
                ) by {
                    if j < last {
                        assert(front[j] == cands[j]);
                    }
                }
            },
        }
    }
}

/// A successful bump advances exactly the named component: every component
/// before it is unchanged, the named one holds the bumped value under its old
/// configuration, and every component after it is reset to its first value.
pub proof fn lemma_bump_shape(
    v: Seq<(Seq<char>, ComponentView)>,
    name: Seq<char>,
    i: int,
    nv: Seq<char>,
)
    requires
        key_index_of(v, name) == Some(i),
        component_bump_of(v[i].1) == Ok::<Seq<char>, BumpError>(nv),
    ensures
        bump_view(v, name) matches Ok(w) && {
            &&& w.len() == v.len()
            &&& forall|j: int| 0 <= j < i ==> w[j] == v[j]
            &&& w[i].0 == v[i].0
            &&& w[i].1.raw == Some(nv)
            &&& w[i].1.config == v[i].1.config
            &&& forall|j: int|
                i < j < v.len() ==> (#[trigger] w[j]).0 == v[j].0 && w[j].1.raw == Some(
                    reset_value_of(v[j].1.config),
                ) && w[j].1.config == v[j].1.config
        },
{
    crate::version::lemma_key_index_of(v, name);
}

} // verus!
