//! Shapes that an editor of save documents tells apart: collections of plain scalars, and
//! arrays that consist of relational references.

use vstd::prelude::*;
use crate::value::{lemma_array_view, reference_target, views, ObjectMap, TiValue, ValueView};

verus! {

/// Null, a boolean, a number or a string.
pub open spec fn is_scalar(v: ValueView) -> bool {
    v is Null || v is Bool || v is Number || v is String
}

/// Every element is a scalar.
pub open spec fn all_scalars(items: Seq<ValueView>) -> bool {
    forall|i: int| 0 <= i < items.len() ==> is_scalar(#[trigger] items[i])
}

/// The targets of the elements of an array, where the array is not empty and every element
/// is a relational reference.
pub open spec fn reference_targets(v: ValueView) -> Option<Seq<i64>> {
    match v {
        ValueView::Array(items) => if items.len() > 0 && forall|i: int|
            0 <= i < items.len() ==> reference_target(#[trigger] items[i]).is_some() {
            Some(Seq::new(items.len(), |i: int| reference_target(items[i]).unwrap()))
        } else {
            None
        },
        _ => None,
    }
}

/// Whether the value is a scalar.
pub fn is_scalar_value(v: &TiValue) -> (r: bool)
    ensures
        r == is_scalar(v@),
{
    match v {
        TiValue::Null | TiValue::Bool(_) | TiValue::Number(_) | TiValue::String(_) => true,
        _ => false,
    }
}

/// Whether a list holds scalars only. The empty list does.
pub fn is_simple_list(arr: &[TiValue]) -> (r: bool)
    ensures
        r == all_scalars(views(arr@)),
{
    let mut i: usize = 0;
    while i < arr.len()
        invariant
            i <= arr@.len(),
            forall|k: int| 0 <= k < i ==> is_scalar(#[trigger] views(arr@)[k]),
        decreases arr@.len() - i,
    {
        if !is_scalar_value(&arr[i]) {
            assert(!is_scalar(views(arr@)[i as int]));
            return false;
        }
        i = i + 1;
    }
    true
}

/// Whether an object has entries and holds scalars only.
pub fn is_simple_object(map: &ObjectMap) -> (r: bool)
    ensures
        r == (map@.len() > 0 && forall|i: int|
            0 <= i < map@.len() ==> is_scalar((#[trigger] map@[i]).1)),
{
    let n = map.len();
    if n == 0 {
        return false;
    }
    let mut i: usize = 0;
    while i < n
        invariant
            i <= n,
            n == map@.len(),
            forall|k: int| 0 <= k < i ==> is_scalar((#[trigger] map@[k]).1),
        decreases n - i,
    {
        if !is_scalar_value(map.value_at(i)) {
            assert(!is_scalar(map@[i as int].1));
            return false;
        }
        i = i + 1;
    }
    true
}

/// The targets of the references in an array that consists of relational references;
/// `None` for anything else, the empty array included.
pub fn array_of_relational_refs(val: &TiValue) -> (r: Option<Vec<i64>>)
    ensures
        match r {
            Some(ids) => reference_targets(val@) == Some(ids@),
            None => reference_targets(val@).is_none(),
        },
{
    let items = match val {
        TiValue::Array(items) => items,
        _ => {
            return None;
        },
    };
    proof {
        lemma_array_view(*items);
    }
    if items.len() == 0 {
        return None;
    }
    let ghost item_views = views(items@);
    let mut out: Vec<i64> = Vec::new();
    let mut i: usize = 0;
    while i < items.len()
        invariant
            i <= items@.len(),
            item_views == views(items@),
            val@ == ValueView::Array(item_views),
            out@.len() == i,
            forall|k: int|
                0 <= k < i ==> reference_target(#[trigger] item_views[k]) == Some(out@[k]),
        decreases items@.len() - i,
    {
        match items[i].is_relational_ref() {
            Some(id) => out.push(id),
            None => {
                assert(reference_target(item_views[i as int]).is_none());
                return None;
            },
        }
        i = i + 1;
    }
    assert(out@ =~= reference_targets(val@).unwrap());
    Some(out)
}

} // verus!
