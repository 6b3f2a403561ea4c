//! The GitHub-Actions-style provider: the workflow files of a project.

use vstd::prelude::*;
use crate::ci::command::{Ignored, IgnoredView, Invocation, InvocationView};
use crate::ci::{
    base_invocation, default_spawn, discovery_of, extracted_commands, jobs_value,
    patterns_accepted, populated, try_to_populate_command, Discovery, DiscoveryError,
    ProviderFile, TEST_KEYWORD,
};
use crate::runner::{Context, CrateSpec};
use crate::strmap::StringMap;
use crate::text::{
    chars_of, contains, contains_text, lowercase, occurs_at, same_text, split_whitespace,
    starts_with, string_of_range, to_lowercase, words,
};
use crate::yaml::{copy_values, YamlValue, YamlView};

verus! {

/// One step of a job.
#[derive(Debug, Clone, PartialEq, Eq)]
pub struct Step {
    pub name: String,
    /// The action that the step refers to; empty where it refers to none.
    pub uses: String,
    /// The parameters handed to the action, in document order.
    pub with: StringMap<YamlValue>,
    /// The step's inline script; empty where it has none.
    pub run: String,
}

/// The matrix of a job: named axes with their candidate values, and entries
/// that each add one combination of values.
#[derive(Debug, Clone, PartialEq, Eq)]
pub struct Matrix {
    pub elements: StringMap<Vec<YamlValue>>,
    pub includes: Vec<YamlValue>,
}

impl Default for Matrix {
    fn default() -> (out: Self)
        ensures
            out.elements.deep_view().len() == 0,
            out.includes@.len() == 0,
    {
        Matrix { elements: StringMap::new(), includes: Vec::new() }
    }
}

#[derive(Debug, Clone, PartialEq, Eq)]
pub struct Strategy {
    pub matrix: Matrix,
}

impl Default for Strategy {
    fn default() -> (out: Self)
        ensures
            out.matrix.elements.deep_view().len() == 0,
            out.matrix.includes@.len() == 0,
    {
        Strategy { matrix: Matrix::default() }
    }
}

/// One job of a workflow.
#[derive(Debug, Clone, PartialEq, Eq)]
pub struct Job {
    pub name: String,
    pub runs_on: String,
    pub steps: Vec<Step>,
    pub strategy: Strategy,
}

impl DeepView for Job {
    type V = Job;

    /// A job stands for itself.
    open spec fn deep_view(&self) -> Job {
        *self
    }
}

/// The defaults of a workflow.
#[derive(Debug, Clone, PartialEq, Eq)]
pub struct Defaults {
    pub run: StringMap<YamlValue>,
}

impl Default for Defaults {
    fn default() -> (out: Self)
        ensures
            out.run.deep_view().len() == 0,
    {
        Defaults { run: StringMap::new() }
    }
}

/// The part of a workflow file that is read.
#[derive(Debug, Clone, PartialEq, Eq)]
pub struct Workflow {
    /// The jobs under their keys, in the order in which they are searched.
    pub jobs: StringMap<Job>,
    pub defaults: Defaults,
    pub env: StringMap<YamlValue>,
}

/// One set of values that a matrix axis can take, with the values of other
/// axes under which it applies.
#[derive(Debug, PartialEq, Eq)]
pub struct MatrixValue {
    pub data: Vec<YamlValue>,
    pub preconditions: StringMap<YamlValue>,
}

/// What a `MatrixValue` holds.
pub struct MatrixValueView {
    pub data: Seq<YamlView>,
    pub preconditions: Map<Seq<char>, YamlView>,
}

impl DeepView for MatrixValue {
    type V = MatrixValueView;

    open spec fn deep_view(&self) -> MatrixValueView {
        MatrixValueView { data: self.data.deep_view(), preconditions: self.preconditions.map() }
    }
}

/// The root that a matrix reference must name.
pub const MATRIX_ROOT: &'static str = "matrix";

/// The index of the first `.` of `s` at or after `from`; the length where there is none.
pub open spec fn dot_index(s: Seq<char>, from: int) -> int
    decreases s.len() - from,
{
    if 0 <= from < s.len() && s[from] != '.' {
        dot_index(s, from + 1)
    } else {
        from
    }
}

/// The first segment of a dotted reference.
pub open spec fn reference_root(var: Seq<char>) -> Seq<char> {
    var.take(dot_index(var, 0))
}

/// The second segment of a dotted reference; none where it has one segment only.
pub open spec fn reference_axis(var: Seq<char>) -> Option<Seq<char>> {
    let dot = dot_index(var, 0);
    if 0 <= dot < var.len() {
        Some(var.subrange(dot + 1, dot_index(var, dot + 1)))
    } else {
        None
    }
}

/// The candidates that a value stands for: the members of a sequence, or the
/// value alone.
pub open spec fn candidates(value: YamlView) -> Seq<YamlView> {
    match value {
        YamlView::Sequence(items) => items,
        other => seq![other],
    }
}

/// The candidates that the pairs of one entry give the axis, if one of them
/// is keyed by it.
pub open spec fn entry_candidates(pairs: Seq<(YamlView, YamlView)>, axis: Seq<char>) -> Option<
    Seq<YamlView>,
>
    decreases pairs.len(),
{
    if pairs.len() == 0 {
        None
    } else if pairs.last().0 == YamlView::String(axis) {
        Some(candidates(pairs.last().1))
    } else {
        entry_candidates(pairs.drop_last(), axis)
    }
}

/// The values of the other axes in one entry: each pair with a string key
/// that is not the axis.
pub open spec fn entry_preconditions(pairs: Seq<(YamlView, YamlView)>, axis: Seq<char>) -> Map<
    Seq<char>,
    YamlView,
>
    decreases pairs.len(),
{
    if pairs.len() == 0 {
        Map::empty()
    } else {
        let before = entry_preconditions(pairs.drop_last(), axis);
        match pairs.last().0 {
            YamlView::String(key) => if key == axis {
                before
            } else {
                before.insert(key, pairs.last().1)
            },
            _ => before,
        }
    }
}

/// What one entry gives the axis: nothing unless it is a mapping with the
/// axis among its keys.
pub open spec fn included_value(entry: YamlView, axis: Seq<char>) -> Option<MatrixValueView> {
    match entry {
        YamlView::Mapping(pairs) => match entry_candidates(pairs, axis) {
            Some(data) => Some(
                MatrixValueView { data, preconditions: entry_preconditions(pairs, axis) },
            ),
            None => None,
        },
        _ => None,
    }
}

/// What the entries give the axis: one result for each entry that gives one,
/// in order, none merged with another.
pub open spec fn included_values(entries: Seq<YamlView>, axis: Seq<char>) -> Seq<MatrixValueView>
    decreases entries.len(),
{
    if entries.len() == 0 {
        Seq::empty()
    } else {
        included_values(entries.drop_last(), axis) + match included_value(entries.last(), axis) {
            Some(value) => seq![value],
            None => Seq::empty(),
        }
    }
}

/// Every set of values that the referenced axis can take in `matrix`.
pub open spec fn matrix_values(matrix: &Matrix, var: Seq<char>) -> Option<Seq<MatrixValueView>> {
    match reference_axis(var) {
        None => None,
        Some(axis) => if reference_root(var) != MATRIX_ROOT@ {
            None
        } else if matrix.elements.map().dom().contains(axis) {
            Some(
                seq![
                    MatrixValueView {
                        data: matrix.elements.map()[axis],
                        preconditions: Map::empty(),
                    },
                ],
            )
        } else {
            Some(included_values(matrix.includes.deep_view(), axis))
        },
    }
}

/// Whether an entry is a mapping with the axis among its keys.
pub open spec fn names_axis(entry: YamlView, axis: Seq<char>) -> bool {
    entry matches YamlView::Mapping(pairs) && exists|i: int|
        0 <= i < pairs.len() && (#[trigger] pairs[i]).0 == YamlView::String(axis)
}

/// No key stands twice among the pairs of one entry.
pub open spec fn distinct_entry_keys(pairs: Seq<(YamlView, YamlView)>) -> bool {
    forall|i: int, j: int| 0 <= i < j < pairs.len() ==> pairs[i].0 != pairs[j].0
}

/// The pairs give the axis candidates exactly where one of them is keyed by it.
proof fn lemma_candidates_iff_named(pairs: Seq<(YamlView, YamlView)>, axis: Seq<char>)
    ensures
        entry_candidates(pairs, axis) is Some <==> exists|i: int|
            0 <= i < pairs.len() && (#[trigger] pairs[i]).0 == YamlView::String(axis),
    decreases pairs.len(),
{
    if pairs.len() > 0 {
        let init = pairs.drop_last();
        lemma_candidates_iff_named(init, axis);
        if pairs.last().0 == YamlView::String(axis) {
            assert(pairs[pairs.len() - 1].0 == YamlView::String(axis));
        } else {
            if entry_candidates(init, axis) is Some {
                let i = choose|i: int|
                    0 <= i < init.len() && (#[trigger] init[i]).0 == YamlView::String(axis);
                assert(pairs[i].0 == YamlView::String(axis));
            }
            if exists|i: int|
                0 <= i < pairs.len() && (#[trigger] pairs[i]).0 == YamlView::String(axis) {
                let i = choose|i: int|
                    0 <= i < pairs.len() && (#[trigger] pairs[i]).0 == YamlView::String(axis);
                assert(init[i].0 == YamlView::String(axis));
            }
        }
    }
}

/// Where no key stands twice, the candidates are those of the pair keyed by the axis.
proof fn lemma_candidates_of_pair(pairs: Seq<(YamlView, YamlView)>, axis: Seq<char>, i: int)
    requires
        0 <= i < pairs.len(),
        pairs[i].0 == YamlView::String(axis),
        distinct_entry_keys(pairs),
    ensures
        entry_candidates(pairs, axis) == Some(candidates(pairs[i].1)),
    decreases pairs.len(),
{
    if i < pairs.len() - 1 {
        assert(pairs[i].0 != pairs[pairs.len() - 1].0);
        lemma_candidates_of_pair(pairs.drop_last(), axis, i);
    }
}

/// The preconditions hold the string keys other than the axis, and where no
/// key stands twice, each with the value paired with it.
proof fn lemma_preconditions_of_pairs(pairs: Seq<(YamlView, YamlView)>, axis: Seq<char>)
    ensures
        !entry_preconditions(pairs, axis).dom().contains(axis),
        forall|key: Seq<char>| #[trigger]
            entry_preconditions(pairs, axis).dom().contains(key) <==> key != axis && exists|
                j: int,
            |
                0 <= j < pairs.len() && (#[trigger] pairs[j]).0 == YamlView::String(key),
        distinct_entry_keys(pairs) ==> forall|j: int, key: Seq<char>|
            0 <= j < pairs.len() && (#[trigger] pairs[j]).0 == YamlView::String(key) && key != axis
                ==> #[trigger] entry_preconditions(pairs, axis)[key] == pairs[j].1,
    decreases pairs.len(),
{
    if pairs.len() > 0 {
        let init = pairs.drop_last();
        let last = pairs.len() - 1;
        lemma_preconditions_of_pairs(init, axis);
        let map = entry_preconditions(pairs, axis);
        let before = entry_preconditions(init, axis);
        assert forall|key: Seq<char>| #[trigger]
            map.dom().contains(key) <==> key != axis && exists|j: int|
                0 <= j < pairs.len() && (#[trigger] pairs[j]).0 == YamlView::String(key) by {
            if before.dom().contains(key) {
                let j = choose|j: int|
                    0 <= j < init.len() && (#[trigger] init[j]).0 == YamlView::String(key);
                assert(pairs[j].0 == YamlView::String(key));
            }
            if pairs[last].0 == YamlView::String(key) && key != axis {
                assert(map.dom().contains(key));
            }
            if key != axis && exists|j: int|
                0 <= j < pairs.len() && (#[trigger] pairs[j]).0 == YamlView::String(key) {
                let j = choose|j: int|
                    0 <= j < pairs.len() && (#[trigger] pairs[j]).0 == YamlView::String(key);
                if j < last {
                    assert(init[j].0 == YamlView::String(key));
                }
            }
        }
        if distinct_entry_keys(pairs) {
            assert(distinct_entry_keys(init)) by {
                assert forall|a: int, b: int| 0 <= a < b < init.len() implies init[a].0
                    != init[b].0 by {
                    assert(pairs[a].0 != pairs[b].0);
                }
            }
            assert forall|j: int, key: Seq<char>|
                0 <= j < pairs.len() && (#[trigger] pairs[j]).0 == YamlView::String(key) && key
                    != axis implies #[trigger] map[key] == pairs[j].1 by {
                if j < last {
                    assert(init[j].0 == YamlView::String(key));
                    assert(pairs[j].0 != pairs[last].0);
                }
            }
        }
    }
}

/// A reference with one segment only, or with another root than `matrix`,
/// resolves to nothing in any matrix.
pub proof fn law_reference_not_applicable(matrix: &Matrix, var: Seq<char>)
    requires
        reference_axis(var) is None || reference_root(var) != MATRIX_ROOT@,
    ensures
        matrix_values(matrix, var) is None,
{
}

/// An axis that is declared directly resolves to exactly one result: all of
/// its candidates, under no precondition.
pub proof fn law_declared_axis(matrix: &Matrix, var: Seq<char>, axis: Seq<char>)
    requires
        reference_root(var) == MATRIX_ROOT@,
        reference_axis(var) == Some(axis),
        matrix.elements.map().dom().contains(axis),
    ensures
        matrix_values(matrix, var) matches Some(values) && values.len() == 1 && values[0].data
            == matrix.elements.map()[axis] && values[0].preconditions == Map::<
            Seq<char>,
            YamlView,
        >::empty(),
{
}

/// An axis that is not declared directly resolves to one result for each
/// added entry that names it, in the order of the entries: as many results
/// as there are such entries, the k-th being what the k-th such entry gives.
pub proof fn law_included_axis(matrix: &Matrix, var: Seq<char>, axis: Seq<char>)
    requires
        reference_root(var) == MATRIX_ROOT@,
        reference_axis(var) == Some(axis),
        !matrix.elements.map().dom().contains(axis),
    ensures
        ({
            let naming = matrix.includes.deep_view().filter(|e: YamlView| names_axis(e, axis));
            &&& matrix_values(matrix, var) matches Some(values) && values.len() == naming.len()
                && forall|k: int|
                0 <= k < values.len() ==> included_value(#[trigger] naming[k], axis) == Some(
                    values[k],
                )
        }),
{
    lemma_included_values_filter(matrix.includes.deep_view(), axis);
}

/// The results of a list of entries are those of the entries that name the axis.
proof fn lemma_included_values_filter(entries: Seq<YamlView>, axis: Seq<char>)
    ensures
        ({
            let naming = entries.filter(|e: YamlView| names_axis(e, axis));
            let values = included_values(entries, axis);
            &&& values.len() == naming.len()
            &&& forall|k: int|
                0 <= k < values.len() ==> included_value(#[trigger] naming[k], axis) == Some(
                    values[k],
                )
        }),
    decreases entries.len(),
{
    reveal(Seq::filter);
    let pred = |e: YamlView| names_axis(e, axis);
    if entries.len() > 0 {
        let init = entries.drop_last();
        lemma_included_values_filter(init, axis);
        let last = entries.last();
        match last {
            YamlView::Mapping(pairs) => {
                lemma_candidates_iff_named(pairs, axis);
            },
            _ => {},
        }
        assert(pred(last) == names_axis(last, axis));
        assert(included_value(last, axis) is Some <==> names_axis(last, axis));
        let naming = entries.filter(pred);
        let values = included_values(entries, axis);
        let naming_init = init.filter(pred);
        let values_init = included_values(init, axis);
        if names_axis(last, axis) {
            assert(naming == naming_init.push(last));
            assert(values =~= values_init.push(included_value(last, axis)->0));
            assert forall|k: int| 0 <= k < values.len() implies included_value(
                #[trigger] naming[k],
                axis,
            ) == Some(values[k]) by {
                if k < values_init.len() {
                    assert(naming[k] == naming_init[k]);
                }
            }
        } else {
            assert(naming == naming_init);
            assert(values =~= values_init);
        }
    }
}

/// What one added entry gives, where no key stands twice in it and its pair
/// at `i` is keyed by the axis: the candidates of that pair, which is the
/// paired value alone unless that is a sequence, under the preconditions
/// made of the entry's other pairs with a string key.
pub proof fn law_entry_result(pairs: Seq<(YamlView, YamlView)>, axis: Seq<char>, i: int)
    requires
        0 <= i < pairs.len(),
        pairs[i].0 == YamlView::String(axis),
        distinct_entry_keys(pairs),
    ensures
        included_value(YamlView::Mapping(pairs), axis) matches Some(value) && value.data
            == candidates(pairs[i].1) && (!(pairs[i].1 is Sequence) ==> value.data
            == seq![pairs[i].1]) && !value.preconditions.dom().contains(axis) && (forall|
            key: Seq<char>,
        | #[trigger]
            value.preconditions.dom().contains(key) <==> key != axis && exists|j: int|
                0 <= j < pairs.len() && (#[trigger] pairs[j]).0 == YamlView::String(key))
            && forall|j: int, key: Seq<char>|
            0 <= j < pairs.len() && (#[trigger] pairs[j]).0 == YamlView::String(key) && key != axis
                ==> #[trigger] value.preconditions[key] == pairs[j].1,
{
    lemma_candidates_of_pair(pairs, axis, i);
    lemma_preconditions_of_pairs(pairs, axis);
}

/// A value stands for at least one candidate, unless it is a sequence
/// without members.
pub proof fn law_candidates_not_empty(value: YamlView)
    requires
        !(value matches YamlView::Sequence(items) && items.len() == 0),
    ensures
        candidates(value).len() > 0,
{
}

/// No result of an added entry holds the resolved axis among its preconditions.
pub proof fn law_preconditions_leave_axis_out(entries: Seq<YamlView>, axis: Seq<char>, k: int)
    requires
        0 <= k < included_values(entries, axis).len(),
    ensures
        !included_values(entries, axis)[k].preconditions.dom().contains(axis),
    decreases entries.len(),
{
    if entries.len() > 0 {
        let before = included_values(entries.drop_last(), axis);
        if k < before.len() {
            law_preconditions_leave_axis_out(entries.drop_last(), axis, k);
        } else {
            match entries.last() {
                YamlView::Mapping(pairs) => {
                    lemma_preconditions_of_pairs(pairs, axis);
                },
                _ => {},
            }
        }
    }
}

/// An axis that is declared nowhere, neither directly nor in an added
/// entry, resolves to an empty list of results.
pub proof fn law_undeclared_axis(matrix: &Matrix, var: Seq<char>, axis: Seq<char>)
    requires
        reference_root(var) == MATRIX_ROOT@,
        reference_axis(var) == Some(axis),
        !matrix.elements.map().dom().contains(axis),
        forall|i: int|
            0 <= i < matrix.includes.deep_view().len() ==> !names_axis(
                #[trigger] matrix.includes.deep_view()[i],
                axis,
            ),
    ensures
        matrix_values(matrix, var) == Some(Seq::<MatrixValueView>::empty()),
{
    lemma_unnamed_entries(matrix.includes.deep_view(), axis);
}

/// Entries that do not name the axis give it nothing.
proof fn lemma_unnamed_entries(entries: Seq<YamlView>, axis: Seq<char>)
    requires
        forall|i: int| 0 <= i < entries.len() ==> !names_axis(#[trigger] entries[i], axis),
    ensures
        included_values(entries, axis) == Seq::<MatrixValueView>::empty(),
    decreases entries.len(),
{
    if entries.len() > 0 {
        let init = entries.drop_last();
        assert forall|i: int| 0 <= i < init.len() implies !names_axis(#[trigger] init[i], axis) by {
            assert(init[i] == entries[i]);
        }
        lemma_unnamed_entries(init, axis);
        assert(!names_axis(entries[entries.len() - 1], axis));
        match entries.last() {
            YamlView::Mapping(pairs) => {
                lemma_candidates_iff_named(pairs, axis);
            },
            _ => {},
        }
        assert(included_values(entries, axis) =~= included_values(init, axis));
    }
}

/// Splits a dotted reference into its first and its second segment.
pub fn split_reference(var: &str) -> (parts: Option<(String, String)>)
    ensures
        match parts {
            Some((root, axis)) => root@ == reference_root(var@) && reference_axis(var@) == Some(
                axis@,
            ),
            None => reference_axis(var@) is None,
        },
{
    let chars = chars_of(var);
    let mut dot: usize = 0;
    while dot < chars.len() && chars[dot] != '.'
        invariant
            dot <= chars.len(),
            chars@ == var@,
            dot_index(var@, 0) == dot_index(var@, dot as int),
        decreases chars.len() - dot,
    {
        dot += 1;
    }
    if dot >= chars.len() {
        return None;
    }
    let mut end: usize = dot + 1;
    while end < chars.len() && chars[end] != '.'
        invariant
            dot < end <= chars.len(),
            chars@ == var@,
            dot_index(var@, dot + 1) == dot_index(var@, end as int),
        decreases chars.len() - end,
    {
        end += 1;
    }
    let root = string_of_range(&chars, 0, dot);
    let axis = string_of_range(&chars, dot + 1, end);
    Some((root, axis))
}

/// Reads from one entry what it gives the axis.
pub fn resolve_included(entry: &YamlValue, axis: &str) -> (out: Option<MatrixValue>)
    ensures
        out.deep_view() == included_value(entry.deep_view(), axis@),
{
    let pairs = match entry.as_mapping() {
        Some(pairs) => pairs,
        None => {
            return None;
        },
    };
    let mut current: Option<Vec<YamlValue>> = None;
    let mut preconditions: StringMap<YamlValue> = StringMap::new();
    let mut i: usize = 0;
    assert(pairs.deep_view().take(0) =~= Seq::<(YamlView, YamlView)>::empty());
    while i < pairs.len()
        invariant
            i <= pairs.len(),
            current.deep_view() == entry_candidates(pairs.deep_view().take(i as int), axis@),
            preconditions.map() == entry_preconditions(pairs.deep_view().take(i as int), axis@),
        decreases pairs.len() - i,
    {
        let ghost next = pairs.deep_view().take(i + 1);
        assert(next.drop_last() =~= pairs.deep_view().take(i as int));
        assert(next.last() == (pairs@[i as int].0.deep_view(), pairs@[i as int].1.deep_view()));
        let key = &pairs[i].0;
        let value = &pairs[i].1;
        match key.as_str() {
            Some(name) => {
                if same_text(name, axis) {
                    match value.as_sequence() {
                        Some(items) => {
                            current = Some(copy_values(items));
                        },
                        None => {
                            let mut single: Vec<YamlValue> = Vec::new();
                            single.push(value.deep_copy());
                            assert(single.deep_view() =~= seq![value.deep_view()]);
                            current = Some(single);
                        },
                    }
                } else {
                    preconditions.insert(name.to_owned(), value.deep_copy());
                }
            },
            None => {},
        }
        i += 1;
    }
    assert(pairs.deep_view().take(pairs.len() as int) =~= pairs.deep_view());
    match current {
        Some(data) => Some(MatrixValue { data, preconditions }),
        None => None,
    }
}

impl Job {
    /// Every set of values that the axis named by the dotted reference `var`
    /// can take, each with the values of other axes under which it applies.
    /// None where `var` has fewer than two segments or another root than
    /// `matrix`; the candidates of a declared axis as one result; else one
    /// result for each added entry that names the axis.
    pub fn get_possible_matrix_values(&self, var: &str) -> (out: Option<Vec<MatrixValue>>)
        ensures
            out.deep_view() == matrix_values(&self.strategy.matrix, var@),
    {
        let (root, axis) = match split_reference(var) {
            Some(parts) => parts,
            None => {
                return None;
            },
        };
        if !same_text(root.as_str(), MATRIX_ROOT) {
            return None;
        }
        let matrix = &self.strategy.matrix;
        match matrix.elements.get(axis.as_str()) {
            Some(declared) => {
                let value = MatrixValue {
                    data: copy_values(declared),
                    preconditions: StringMap::new(),
                };
                let mut out: Vec<MatrixValue> = Vec::new();
                out.push(value);
                assert(out.deep_view() =~= seq![value.deep_view()]);
                Some(out)
            },
            None => {
                let mut out: Vec<MatrixValue> = Vec::new();
                let mut i: usize = 0;
                assert(matrix.includes.deep_view().take(0) =~= Seq::<YamlView>::empty());
                assert(out.deep_view() =~= Seq::<MatrixValueView>::empty());
                while i < matrix.includes.len()
                    invariant
                        i <= matrix.includes.len(),
                        out.deep_view() == included_values(
                            matrix.includes.deep_view().take(i as int),
                            axis@,
                        ),
                    decreases matrix.includes.len() - i,
                {
                    let ghost next = matrix.includes.deep_view().take(i + 1);
                    assert(next.drop_last() =~= matrix.includes.deep_view().take(i as int));
                    assert(next.last() == matrix.includes@[i as int].deep_view());
                    let ghost before = out.deep_view();
                    match resolve_included(&matrix.includes[i], axis.as_str()) {
                        Some(value) => {
                            out.push(value);
                            assert(out.deep_view() =~= before + seq![value.deep_view()]);
                        },
                        None => {
                            assert(before + Seq::<MatrixValueView>::empty() =~= before);
                        },
                    }
                    i += 1;
                }
                assert(matrix.includes.deep_view().take(matrix.includes.len() as int)
                    =~= matrix.includes.deep_view());
                Some(out)
            },
        }
    }
}

/// The flag that sets the colouring of the tool's output.
pub const COLOR_FLAG: &'static str = "--color";

/// The words at and after `from` without each colour flag and the word after it.
pub open spec fn without_color(tokens: Seq<Seq<char>>, from: int) -> Seq<Seq<char>>
    decreases tokens.len() - from,
{
    if from < 0 || from >= tokens.len() {
        Seq::empty()
    } else if tokens[from] == COLOR_FLAG@ {
        if from + 2 <= tokens.len() {
            without_color(tokens, from + 2)
        } else {
            Seq::empty()
        }
    } else {
        seq![tokens[from]] + without_color(tokens, from + 1)
    }
}

/// The arguments that free-form argument text adds.
pub open spec fn free_args(text: Seq<char>) -> Seq<Seq<char>> {
    without_color(words(text), 0)
}

/// Adds to `cmd` the words of `args`, but for each colour flag and the word
/// that follows it.
pub fn process_arg_string(cmd: &mut Invocation, args: &str)
    ensures
        final(cmd)@ == (InvocationView { args: old(cmd)@.args + free_args(args@), ..old(cmd)@ }),
{
    let tokens = split_whitespace(args);
    let ghost all = tokens.deep_view();
    let ghost start = cmd@;
    let mut skip_next = false;
    let mut i: usize = 0;
    let ghost mut added: Seq<Seq<char>> = Seq::empty();
    assert(cmd@.args + Seq::<Seq<char>>::empty() =~= cmd@.args);
    while i < tokens.len()
        invariant
            i <= tokens.len(),
            all == tokens.deep_view(),
            start == old(cmd)@,
            cmd@ == (InvocationView { args: start.args + added, ..start }),
            free_args(args@) == added + without_color(all, if skip_next {
                i + 1
            } else {
                i as int
            }),
            all == words(args@),
        decreases tokens.len() - i,
    {
        if skip_next {
            skip_next = false;
        } else if same_text(tokens[i].as_str(), COLOR_FLAG) {
            skip_next = true;
        } else {
            cmd.arg(tokens[i].as_str());
            proof {
                let rest = without_color(all, i + 1);
                assert(added + (seq![all[i as int]] + rest) =~= added.push(all[i as int]) + rest);
                assert(start.args + added.push(all[i as int]) =~= (start.args + added).push(
                    all[i as int],
                ));
                added = added.push(all[i as int]);
            }
        }
        i += 1;
    }
    assert(added + Seq::<Seq<char>>::empty() =~= added);
}

/// The action that runs the coverage tool.
pub const COVERAGE_ACTION: &'static str = "actions-rs/tarpaulin";

/// The action that runs the build tool.
pub const BUILD_ACTION: &'static str = "actions-rs/cargo";

/// The arguments that one parameter of the coverage action stands for. Only
/// a parameter with a string value counts, and only under a known key.
pub open spec fn parameter_args(key: Seq<char>, value: YamlView) -> Seq<Seq<char>> {
    match value {
        YamlView::String(text) => if key == "run-types"@ {
            seq!["--run-types"@] + words(text)
        } else if key == "timeout"@ {
            seq!["--timeout"@, text]
        } else if key == "out-type"@ {
            seq!["--out"@]
        } else if key == "args"@ || key == "version"@ {
            free_args(text)
        } else {
            Seq::empty()
        },
        _ => Seq::empty(),
    }
}

/// The arguments that the parameters at and after `from` stand for, in order.
pub open spec fn action_args(with: Seq<(Seq<char>, YamlView)>, from: int) -> Seq<Seq<char>>
    decreases with.len() - from,
{
    if from < 0 || from >= with.len() {
        Seq::empty()
    } else {
        parameter_args(with[from].0, with[from].1) + action_args(with, from + 1)
    }
}

/// Whether a key is one of the known parameters of the coverage action.
pub open spec fn is_known_parameter(key: Seq<char>) -> bool {
    key == "run-types"@ || key == "timeout"@ || key == "out-type"@ || key == "args"@ || key
        == "version"@
}

/// What one parameter of the coverage action leaves out: its key, where it
/// has a string value under a key that is not known.
pub open spec fn parameter_ignored(key: Seq<char>, value: YamlView) -> Seq<IgnoredView> {
    if value is String && !is_known_parameter(key) {
        seq![IgnoredView::Parameter(key)]
    } else {
        Seq::empty()
    }
}

/// What the parameters at and after `from` leave out, in order.
pub open spec fn action_ignored(with: Seq<(Seq<char>, YamlView)>, from: int) -> Seq<IgnoredView>
    decreases with.len() - from,
{
    if from < 0 || from >= with.len() {
        Seq::empty()
    } else {
        parameter_ignored(with[from].0, with[from].1) + action_ignored(with, from + 1)
    }
}

/// Reads one parameter of the coverage action into `cmd`: the arguments it
/// stands for, or a note that its key is not known.
pub fn apply_parameter(cmd: &mut Invocation, key: &str, value: &YamlValue)
    ensures
        final(cmd)@ == (InvocationView {
            args: old(cmd)@.args + parameter_args(key@, value.deep_view()),
            ignored: old(cmd)@.ignored + parameter_ignored(key@, value.deep_view()),
            ..old(cmd)@
        }),
{
    assert(cmd@.args + Seq::<Seq<char>>::empty() =~= cmd@.args);
    assert(cmd@.ignored + Seq::<IgnoredView>::empty() =~= cmd@.ignored);
    let text = match value.as_str() {
        Some(text) => text,
        None => {
            return ;
        },
    };
    if same_text(key, "run-types") {
        cmd.arg("--run-types");
        let types = split_whitespace(text);
        cmd.args(&types);
        assert(cmd@.args =~= old(cmd)@.args + (seq!["--run-types"@] + words(text@)));
    } else if same_text(key, "timeout") {
        cmd.arg("--timeout");
        cmd.arg(text);
        assert(cmd@.args =~= old(cmd)@.args + seq!["--timeout"@, text@]);
    } else if same_text(key, "out-type") {
        cmd.arg("--out");
        assert(cmd@.args =~= old(cmd)@.args + seq!["--out"@]);
    } else if same_text(key, "args") || same_text(key, "version") {
        process_arg_string(cmd, text);
    } else {
        cmd.ignore(Ignored::Parameter(key.to_owned()));
        assert(cmd@.ignored =~= old(cmd)@.ignored + seq![IgnoredView::Parameter(key@)]);
    }
}

/// Reads the parameters of the coverage action into `cmd`, in order.
pub fn apply_parameters(cmd: &mut Invocation, with: &StringMap<YamlValue>)
    ensures
        final(cmd)@ == (InvocationView {
            args: old(cmd)@.args + action_args(with.deep_view(), 0),
            ignored: old(cmd)@.ignored + action_ignored(with.deep_view(), 0),
            ..old(cmd)@
        }),
{
    let ghost start = cmd@;
    let ghost mut added: Seq<Seq<char>> = Seq::empty();
    let ghost mut noted: Seq<IgnoredView> = Seq::empty();
    let mut i: usize = 0;
    assert(cmd@.args + Seq::<Seq<char>>::empty() =~= cmd@.args);
    assert(cmd@.ignored + Seq::<IgnoredView>::empty() =~= cmd@.ignored);
    while i < with.len()
        invariant
            i <= with.deep_view().len(),
            start == old(cmd)@,
            cmd@ == (InvocationView {
                args: start.args + added,
                ignored: start.ignored + noted,
                ..start
            }),
            action_args(with.deep_view(), 0) == added + action_args(with.deep_view(), i as int),
            action_ignored(with.deep_view(), 0) == noted + action_ignored(
                with.deep_view(),
                i as int,
            ),
        decreases with.deep_view().len() - i,
    {
        let key = with.key_at(i);
        let value = with.value_at(i);
        apply_parameter(cmd, key.as_str(), value);
        proof {
            let here = parameter_args(key@, value.deep_view());
            let rest = action_args(with.deep_view(), i + 1);
            assert(added + (here + rest) =~= (added + here) + rest);
            assert((start.args + added) + here =~= start.args + (added + here));
            added = added + here;
            let left_out = parameter_ignored(key@, value.deep_view());
            let others = action_ignored(with.deep_view(), i + 1);
            assert(noted + (left_out + others) =~= (noted + left_out) + others);
            assert((start.ignored + noted) + left_out =~= start.ignored + (noted + left_out));
            noted = noted + left_out;
        }
        i += 1;
    }
    assert(added + Seq::<Seq<char>>::empty() =~= added);
    assert(noted + Seq::<IgnoredView>::empty() =~= noted);
}

/// The index of the first step at or after `from` that refers to `action`.
pub open spec fn first_step_using(steps: Seq<Step>, action: Seq<char>, from: int) -> Option<int>
    decreases steps.len() - from,
{
    if from < 0 || from >= steps.len() {
        None
    } else if occurs_at(steps[from].uses@, action, 0) {
        Some(from)
    } else {
        first_step_using(steps, action, from + 1)
    }
}

/// The index of the first step at or after `from` whose script holds the
/// test keyword.
pub open spec fn first_step_running(steps: Seq<Step>, from: int) -> Option<int>
    decreases steps.len() - from,
{
    if from < 0 || from >= steps.len() {
        None
    } else if contains_text(steps[from].run@, TEST_KEYWORD@) {
        Some(from)
    } else {
        first_step_running(steps, from + 1)
    }
}

/// Whether a step refers to the build action and has it run the tests.
pub open spec fn runs_tests(step: Step) -> bool {
    occurs_at(step.uses@, BUILD_ACTION@, 0) && string_parameter(step.with.map(), "command"@)
        == Some("test"@)
}

/// The index of the first step at or after `from` that has the build action
/// run the tests.
pub open spec fn first_test_step(steps: Seq<Step>, from: int) -> Option<int>
    decreases steps.len() - from,
{
    if from < 0 || from >= steps.len() {
        None
    } else if runs_tests(steps[from]) {
        Some(from)
    } else {
        first_test_step(steps, from + 1)
    }
}

/// Decides `runs_tests`.
pub fn step_runs_tests(step: &Step) -> (yes: bool)
    ensures
        yes == runs_tests(*step),
{
    if !starts_with(step.uses.as_str(), BUILD_ACTION) {
        return false;
    }
    match step.with.get("command") {
        Some(value) => match value.as_str() {
            Some(command) => same_text(command, "test"),
            None => false,
        },
        None => false,
    }
}

/// Finds the first step that has the build action run the tests.
pub fn find_test_step(steps: &Vec<Step>) -> (found: Option<usize>)
    ensures
        match found {
            Some(i) => first_test_step(steps@, 0) == Some(i as int) && i < steps.len(),
            None => first_test_step(steps@, 0) is None,
        },
{
    let mut i: usize = 0;
    while i < steps.len()
        invariant
            i <= steps.len(),
            first_test_step(steps@, 0) == first_test_step(steps@, i as int),
        decreases steps.len() - i,
    {
        if step_runs_tests(&steps[i]) {
            return Some(i);
        }
        i += 1;
    }
    None
}

/// Finds the first step that refers to `action`.
pub fn find_step_using(steps: &Vec<Step>, action: &str) -> (found: Option<usize>)
    ensures
        match found {
            Some(i) => first_step_using(steps@, action@, 0) == Some(i as int) && i < steps.len(),
            None => first_step_using(steps@, action@, 0) is None,
        },
{
    let mut i: usize = 0;
    while i < steps.len()
        invariant
            i <= steps.len(),
            first_step_using(steps@, action@, 0) == first_step_using(steps@, action@, i as int),
        decreases steps.len() - i,
    {
        if starts_with(steps[i].uses.as_str(), action) {
            return Some(i);
        }
        i += 1;
    }
    None
}

impl Defaults {
    /// The working directory that the defaults declare for scripts.
    pub open spec fn working_directory_view(self) -> Option<Seq<char>> {
        if self.run.map().dom().contains("working-directory"@) {
            match self.run.map()["working-directory"@] {
                YamlView::String(dir) => Some(dir),
                _ => None,
            }
        } else {
            None
        }
    }

    /// The working directory that the defaults declare for scripts.
    pub fn working_directory(&self) -> (dir: Option<&str>)
        ensures
            match dir {
                Some(d) => self.working_directory_view() == Some(d@),
                None => self.working_directory_view() is None,
            },
    {
        match self.run.get("working-directory") {
            Some(value) => value.as_str(),
            None => None,
        }
    }
}

/// The string stored in `with` under `key`, if a string is stored there.
pub open spec fn string_parameter(with: Map<Seq<char>, YamlView>, key: Seq<char>) -> Option<
    Seq<char>,
> {
    if with.dom().contains(key) {
        match with[key] {
            YamlView::String(text) => Some(text),
            _ => None,
        }
    } else {
        None
    }
}

/// What a step that has the build action run the tests gives: `cmd` in the
/// declared default working directory, with the step's own arguments.
pub open spec fn build_step_command(step: Step, defaults: Defaults, cmd: InvocationView) -> InvocationView {
    InvocationView {
        working_directory: match defaults.working_directory_view() {
            Some(dir) => Some(dir),
            None => cmd.working_directory,
        },
        args: cmd.args + match string_parameter(step.with.map(), "args"@) {
            Some(text) => free_args(text),
            None => Seq::empty(),
        },
        ..cmd
    }
}

/// What one job gives: the parameters of the coverage action's step, where
/// a step refers to that action; else the first step that has the build
/// action run the tests; else the first step whose script holds the test
/// command.
pub open spec fn job_command(job: Job, defaults: Defaults, cmd: InvocationView) -> Option<
    InvocationView,
> {
    match first_step_using(job.steps@, COVERAGE_ACTION@, 0) {
        Some(i) => Some(
            InvocationView {
                args: cmd.args + action_args(job.steps@[i].with.deep_view(), 0),
                ignored: cmd.ignored + action_ignored(job.steps@[i].with.deep_view(), 0),
                ..cmd
            },
        ),
        None => match first_test_step(job.steps@, 0) {
            Some(i) => Some(build_step_command(job.steps@[i], defaults, cmd)),
            None => match first_step_running(job.steps@, 0) {
                Some(i) => Some(populated(cmd, extracted_commands(job.steps@[i].run@))),
                None => None,
            },
        },
    }
}

/// The index of the first job at or after `from` that gives a command.
pub open spec fn first_job_with_command(
    jobs: Seq<(Seq<char>, Job)>,
    defaults: Defaults,
    cmd: InvocationView,
    from: int,
) -> Option<int>
    decreases jobs.len() - from,
{
    if from < 0 || from >= jobs.len() {
        None
    } else if job_command(jobs[from].1, defaults, cmd) is Some {
        Some(from)
    } else {
        first_job_with_command(jobs, defaults, cmd, from + 1)
    }
}

/// What a workflow gives: the command of its first job that gives one.
pub open spec fn workflow_command(workflow: Workflow, cmd: InvocationView) -> Option<
    InvocationView,
> {
    match first_job_with_command(workflow.jobs.deep_view(), workflow.defaults, cmd, 0) {
        Some(i) => job_command(workflow.jobs.deep_view()[i].1, workflow.defaults, cmd),
        None => None,
    }
}

/// Reads a step that has the build action run the tests into `cmd`.
fn read_build_step(step: &Step, defaults: &Defaults, cmd: &mut Invocation)
    ensures
        final(cmd)@ == build_step_command(*step, *defaults, old(cmd)@),
{
    match defaults.working_directory() {
        Some(dir) => {
            cmd.working_directory(dir);
        },
        None => {},
    }
    match step.with.get("args") {
        Some(value) => match value.as_str() {
            Some(text) => {
                process_arg_string(cmd, text);
            },
            None => {
                assert(cmd@.args + Seq::<Seq<char>>::empty() =~= cmd@.args);
            },
        },
        None => {
            assert(cmd@.args + Seq::<Seq<char>>::empty() =~= cmd@.args);
        },
    }
}

/// Reads one job into `cmd`.
fn read_job(job: &Job, defaults: &Defaults, cmd: &mut Invocation) -> (found: bool)
    requires
        patterns_accepted(),
    ensures
        found == job_command(*job, *defaults, old(cmd)@) is Some,
        found ==> Some(final(cmd)@) == job_command(*job, *defaults, old(cmd)@),
        !found ==> final(cmd)@ == old(cmd)@,
{
    match find_step_using(&job.steps, COVERAGE_ACTION) {
        Some(i) => {
            apply_parameters(cmd, &job.steps[i].with);
            return true;
        },
        None => {},
    }
    match find_test_step(&job.steps) {
        Some(i) => {
            read_build_step(&job.steps[i], defaults, cmd);
            return true;
        },
        None => {},
    }
    let mut i: usize = 0;
    while i < job.steps.len()
        invariant
            i <= job.steps.len(),
            patterns_accepted(),
            cmd@ == old(cmd)@,
            first_step_using(job.steps@, COVERAGE_ACTION@, 0) is None,
            first_test_step(job.steps@, 0) is None,
            first_step_running(job.steps@, 0) == first_step_running(job.steps@, i as int),
        decreases job.steps.len() - i,
    {
        if try_to_populate_command(job.steps[i].run.as_str(), cmd) {
            return true;
        }
        i += 1;
    }
    false
}

/// Reads a workflow into `cmd`: job after job, until one gives a command.
/// Where none does, `cmd` is left as it was.
pub fn read_workflow(workflow: &Workflow, cmd: &mut Invocation) -> (found: bool)
    requires
        patterns_accepted(),
    ensures
        found == workflow_command(*workflow, old(cmd)@) is Some,
        found ==> Some(final(cmd)@) == workflow_command(*workflow, old(cmd)@),
        !found ==> final(cmd)@ == old(cmd)@,
{
    let mut i: usize = 0;
    while i < workflow.jobs.len()
        invariant
            i <= workflow.jobs.deep_view().len(),
            patterns_accepted(),
            cmd@ == old(cmd)@,
            first_job_with_command(workflow.jobs.deep_view(), workflow.defaults, old(cmd)@, 0)
                == first_job_with_command(
                workflow.jobs.deep_view(),
                workflow.defaults,
                old(cmd)@,
                i as int,
            ),
        decreases workflow.jobs.deep_view().len() - i,
    {
        if read_job(workflow.jobs.value_at(i), &workflow.defaults, cmd) {
            return true;
        }
        i += 1;
    }
    false
}

/// The directory below a project's root that holds its workflow files.
pub const WORKFLOW_DIR: &'static str = ".github/workflows";

/// One workflow file: its file name and what the caller read from it.
#[derive(Debug, Clone, PartialEq, Eq)]
pub struct WorkflowFile {
    pub name: String,
    pub content: ProviderFile<Workflow>,
}

/// Whether a file name, in lower case, holds `name`.
pub fn find_job(file: &str, name: &str) -> (found: bool)
    ensures
        found == contains_text(lowercase(file@), name@),
{
    let lowered = to_lowercase(file);
    contains(lowered.as_str(), name)
}

/// The index of the first file at or after `from` whose name holds `word`.
pub open spec fn first_file_named(files: Seq<WorkflowFile>, word: Seq<char>, from: int) -> Option<
    int,
>
    decreases files.len() - from,
{
    if from < 0 || from >= files.len() {
        None
    } else if contains_text(lowercase(files[from].name@), word) {
        Some(from)
    } else {
        first_file_named(files, word, from + 1)
    }
}

/// The file that the names single out: the first one called after coverage,
/// else after tests, else after CI, else after the ecosystem.
pub open spec fn preferred_file(files: Seq<WorkflowFile>) -> Option<int> {
    match first_file_named(files, "coverage"@, 0) {
        Some(i) => Some(i),
        None => match first_file_named(files, "test"@, 0) {
            Some(i) => Some(i),
            None => match first_file_named(files, "ci"@, 0) {
                Some(i) => Some(i),
                None => first_file_named(files, "rust"@, 0),
            },
        },
    }
}

/// What one workflow file gives.
pub open spec fn file_discovery(file: WorkflowFile, base: InvocationView) -> Discovery {
    match file.content {
        ProviderFile::Absent => Discovery::NotFound,
        ProviderFile::Malformed(reason) => Discovery::Parse(reason@),
        ProviderFile::Parsed(workflow) => match workflow_command(workflow, base) {
            Some(cmd) => Discovery::Found(cmd),
            None => Discovery::NotFound,
        },
    }
}

/// The index of the first file at or after `from` that gives a command.
pub open spec fn first_file_found(files: Seq<WorkflowFile>, base: InvocationView, from: int) -> Option<
    int,
>
    decreases files.len() - from,
{
    if from < 0 || from >= files.len() {
        None
    } else if file_discovery(files[from], base) is Found {
        Some(from)
    } else {
        first_file_found(files, base, from + 1)
    }
}

/// What the workflow files give; `files` is none where the project has no
/// workflow directory. Where a name singles out a file, that file decides
/// alone; else the first file that gives a command does.
pub open spec fn github_discovery(files: Option<Seq<WorkflowFile>>, base: InvocationView) -> Discovery {
    match files {
        None => Discovery::NotFound,
        Some(files) => match preferred_file(files) {
            Some(i) => file_discovery(files[i], base),
            None => match first_file_found(files, base, 0) {
                Some(i) => file_discovery(files[i], base),
                None => Discovery::NotFound,
            },
        },
    }
}

/// Finds the first file whose name holds `word`.
pub fn find_file_named(files: &Vec<WorkflowFile>, word: &str) -> (found: Option<usize>)
    ensures
        match found {
            Some(i) => first_file_named(files@, word@, 0) == Some(i as int) && i < files.len(),
            None => first_file_named(files@, word@, 0) is None,
        },
{
    let mut i: usize = 0;
    while i < files.len()
        invariant
            i <= files.len(),
            first_file_named(files@, word@, 0) == first_file_named(files@, word@, i as int),
        decreases files.len() - i,
    {
        if find_job(files[i].name.as_str(), word) {
            return Some(i);
        }
        i += 1;
    }
    None
}

/// Picks the file that the names single out.
pub fn choose_file(files: &Vec<WorkflowFile>) -> (chosen: Option<usize>)
    ensures
        match chosen {
            Some(i) => preferred_file(files@) == Some(i as int) && i < files.len(),
            None => preferred_file(files@) is None,
        },
{
    match find_file_named(files, "coverage") {
        Some(i) => {
            return Some(i);
        },
        None => {},
    }
    match find_file_named(files, "test") {
        Some(i) => {
            return Some(i);
        },
        None => {},
    }
    match find_file_named(files, "ci") {
        Some(i) => {
            return Some(i);
        },
        None => {},
    }
    find_file_named(files, "rust")
}

/// Reads one workflow file into `cmd`; where it gives nothing, `cmd` is left
/// as it was.
pub fn read_file(file: &WorkflowFile, cmd: &mut Invocation) -> (res: Result<(), DiscoveryError>)
    requires
        patterns_accepted(),
    ensures
        match file_discovery(*file, old(cmd)@) {
            Discovery::Found(found) => res is Ok && final(cmd)@ == found,
            Discovery::NotFound => res == Err::<(), DiscoveryError>(DiscoveryError::NotFound)
                && final(cmd)@ == old(cmd)@,
            Discovery::Parse(reason) => res matches Err(DiscoveryError::Parse(r)) && r@ == reason
                && final(cmd)@ == old(cmd)@,
        },
{
    match &file.content {
        ProviderFile::Absent => Err(DiscoveryError::NotFound),
        ProviderFile::Malformed(reason) => Err(DiscoveryError::Parse(reason.clone())),
        ProviderFile::Parsed(workflow) => {
            if read_workflow(workflow, cmd) {
                Ok(())
            } else {
                Err(DiscoveryError::NotFound)
            }
        },
    }
}

/// Reads the invocation out of the workflow files of a project.
pub fn get_command(
    root: &str,
    jobs: Option<&usize>,
    context: &Context,
    spec: &CrateSpec,
    files: Option<&Vec<WorkflowFile>>,
) -> (res: Result<Invocation, DiscoveryError>)
    requires
        patterns_accepted(),
    ensures
        discovery_of(res) == github_discovery(
            match files {
                Some(f) => Some(f@),
                None => None,
            },
            base_invocation(root@, jobs_value(jobs), context, spec),
        ),
{
    let list = match files {
        Some(list) => list,
        None => {
            return Err(DiscoveryError::NotFound);
        },
    };
    let mut cmd = default_spawn(root, jobs, context, spec);
    let ghost base = cmd@;
    match choose_file(list) {
        Some(i) => {
            return match read_file(&list[i], &mut cmd) {
                Ok(_) => Ok(cmd),
                Err(e) => Err(e),
            };
        },
        None => {},
    }
    let mut i: usize = 0;
    while i < list.len()
        invariant
            i <= list.len(),
            patterns_accepted(),
            files == Some(list),
            cmd@ == base,
            base == base_invocation(root@, jobs_value(jobs), context, spec),
            preferred_file(list@) is None,
            first_file_found(list@, base, 0) == first_file_found(list@, base, i as int),
        decreases list.len() - i,
    {
        match read_file(&list[i], &mut cmd) {
            Ok(_) => {
                return Ok(cmd);
            },
            Err(_) => {},
        }
        i += 1;
    }
    Err(DiscoveryError::NotFound)
}

} // verus!
