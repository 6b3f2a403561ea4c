//! A parsed YAML document as a plain tree.

use vstd::prelude::*;
use crate::strmap::{put, StringMap};

verus! {

/// A YAML number. A float is held as the bit pattern of its double-precision value.
#[derive(Debug, Clone, Copy, PartialEq, Eq, Structural)]
pub enum YamlNumber {
    Unsigned(u64),
    Signed(i64),
    FloatBits(u64),
}

/// A node of a YAML document.
#[derive(Debug, PartialEq, Eq)]
pub enum YamlValue {
    Null,
    Bool(bool),
    Number(YamlNumber),
    String(String),
    Sequence(Vec<YamlValue>),
    /// The entries of a mapping, in document order.
    Mapping(Vec<(YamlValue, YamlValue)>),
}

/// What a `YamlValue` holds, as a mathematical tree.
pub enum YamlView {
    Null,
    Bool(bool),
    Number(YamlNumber),
    String(Seq<char>),
    Sequence(Seq<YamlView>),
    Mapping(Seq<(YamlView, YamlView)>),
}

/// What the tree `value` holds.
pub open spec fn yaml_view(value: YamlValue) -> YamlView
    decreases value,
{
    match value {
        YamlValue::Null => YamlView::Null,
        YamlValue::Bool(b) => YamlView::Bool(b),
        YamlValue::Number(n) => YamlView::Number(n),
        YamlValue::String(s) => YamlView::String(s@),
        YamlValue::Sequence(items) => YamlView::Sequence(
            Seq::new(
                items@.len(),
                |i: int|
                    if 0 <= i < items@.len() {
                        yaml_view(items@[i])
                    } else {
                        YamlView::Null
                    },
            ),
        ),
        YamlValue::Mapping(entries) => YamlView::Mapping(
            Seq::new(
                entries@.len(),
                |i: int|
                    if 0 <= i < entries@.len() {
                        (yaml_view(entries@[i].0), yaml_view(entries@[i].1))
                    } else {
                        (YamlView::Null, YamlView::Null)
                    },
            ),
        ),
    }
}

impl DeepView for YamlValue {
    type V = YamlView;

    open spec fn deep_view(&self) -> YamlView {
        yaml_view(*self)
    }
}

impl YamlValue {
    /// A tree that holds what this one holds.
    pub fn deep_copy(&self) -> (out: YamlValue)
        ensures
            out.deep_view() == self.deep_view(),
        decreases self,
    {
        match self {
            YamlValue::Null => YamlValue::Null,
            YamlValue::Bool(b) => YamlValue::Bool(*b),
            YamlValue::Number(n) => YamlValue::Number(*n),
            YamlValue::String(s) => YamlValue::String(s.clone()),
            YamlValue::Sequence(items) => {
                let mut copy: Vec<YamlValue> = Vec::new();
                let mut i: usize = 0;
                while i < items.len()
                    invariant
                        i <= items.len(),
                        copy.len() == i,
                        decreases_to!(self => items),
                        forall|j: int|
                            0 <= j < i ==> (#[trigger] copy@[j]).deep_view()
                                == items@[j].deep_view(),
                    decreases items.len() - i,
                {
                    let item = items[i].deep_copy();
                    copy.push(item);
                    i += 1;
                }
                let out = YamlValue::Sequence(copy);
                assert(out.deep_view()->Sequence_0 =~= self.deep_view()->Sequence_0);
                out
            },
            YamlValue::Mapping(entries) => {
                let mut copy: Vec<(YamlValue, YamlValue)> = Vec::new();
                let mut i: usize = 0;
                while i < entries.len()
                    invariant
                        i <= entries.len(),
                        copy.len() == i,
                        decreases_to!(self => entries),
                        forall|j: int|
                            0 <= j < i ==> (#[trigger] copy@[j]).0.deep_view()
                                == entries@[j].0.deep_view() && copy@[j].1.deep_view()
                                == entries@[j].1.deep_view(),
                    decreases entries.len() - i,
                {
                    let key = entries[i].0.deep_copy();
                    let value = entries[i].1.deep_copy();
                    copy.push((key, value));
                    i += 1;
                }
                let out = YamlValue::Mapping(copy);
                assert(out.deep_view()->Mapping_0 =~= self.deep_view()->Mapping_0);
                out
            },
        }
    }

    /// The text of a string node.
    pub fn as_str(&self) -> (text: Option<&str>)
        ensures
            match text {
                Some(s) => self.deep_view() == YamlView::String(s@),
                None => !(self.deep_view() is String),
            },
    {
        match self {
            YamlValue::String(s) => Some(s.as_str()),
            _ => None,
        }
    }

    /// Whether the node is a string.
    pub fn is_string(&self) -> (yes: bool)
        ensures
            yes == (self.deep_view() is String),
    {
        match self {
            YamlValue::String(_) => true,
            _ => false,
        }
    }

    /// The items of a sequence node.
    pub fn as_sequence(&self) -> (items: Option<&Vec<YamlValue>>)
        ensures
            match items {
                Some(v) => self.deep_view() == YamlView::Sequence(v.deep_view()),
                None => !(self.deep_view() is Sequence),
            },
    {
        match self {
            YamlValue::Sequence(items) => {
                assert(self.deep_view()->Sequence_0 =~= items.deep_view());
                Some(items)
            },
            _ => None,
        }
    }

    /// The entries of a mapping node.
    pub fn as_mapping(&self) -> (entries: Option<&Vec<(YamlValue, YamlValue)>>)
        ensures
            match entries {
                Some(v) => self.deep_view() == YamlView::Mapping(v.deep_view()),
                None => !(self.deep_view() is Mapping),
            },
    {
        match self {
            YamlValue::Mapping(entries) => {
                assert(self.deep_view()->Mapping_0 =~= entries.deep_view());
                Some(entries)
            },
            _ => None,
        }
    }
}

impl Clone for YamlValue {
    fn clone(&self) -> (out: Self)
        ensures
            out.deep_view() == self.deep_view(),
    {
        self.deep_copy()
    }
}

/// Copies a list of nodes.
pub fn copy_values(items: &Vec<YamlValue>) -> (out: Vec<YamlValue>)
    ensures
        out.deep_view() == items.deep_view(),
{
    let mut out: Vec<YamlValue> = Vec::new();
    let mut i: usize = 0;
    while i < items.len()
        invariant
            i <= items.len(),
            out.len() == i,
            forall|j: int| 0 <= j < i ==> (#[trigger] out@[j]).deep_view() == items@[j].deep_view(),
        decreases items.len() - i,
    {
        out.push(items[i].deep_copy());
        i += 1;
    }
    assert(out.deep_view() =~= items.deep_view());
    out
}

/// The pairs of a mapping that have a string key, as a list of entries under
/// those keys: each key where it first stands, with the value of the last
/// pair that has it.
pub open spec fn keyed_entries(pairs: Seq<(YamlView, YamlView)>) -> Seq<(Seq<char>, YamlView)>
    decreases pairs.len(),
{
    if pairs.len() == 0 {
        Seq::empty()
    } else {
        let before = keyed_entries(pairs.drop_last());
        match pairs.last().0 {
            YamlView::String(key) => put(before, key, pairs.last().1),
            _ => before,
        }
    }
}

/// Reads the pairs of a mapping that have a string key into a map, in
/// document order; pairs under other keys are left out.
pub fn string_entries(pairs: &Vec<(YamlValue, YamlValue)>) -> (out: StringMap<YamlValue>)
    ensures
        out.deep_view() == keyed_entries(pairs.deep_view()),
{
    let mut out: StringMap<YamlValue> = StringMap::new();
    let mut i: usize = 0;
    assert(pairs.deep_view().take(0) =~= Seq::<(YamlView, YamlView)>::empty());
    while i < pairs.len()
        invariant
            i <= pairs.len(),
            out.deep_view() == keyed_entries(pairs.deep_view().take(i as int)),
        decreases pairs.len() - i,
    {
        let ghost next = pairs.deep_view().take(i + 1);
        assert(next.drop_last() =~= pairs.deep_view().take(i as int));
        assert(next.last() == (pairs@[i as int].0.deep_view(), pairs@[i as int].1.deep_view()));
        match pairs[i].0.as_str() {
            Some(key) => {
                out.insert(key.to_owned(), pairs[i].1.deep_copy());
            },
            None => {},
        }
        i += 1;
    }
    assert(pairs.deep_view().take(pairs.len() as int) =~= pairs.deep_view());
    out
}

} // verus!
