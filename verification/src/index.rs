//! The entity index: lookup tables from entity ID to where the entity stands in the
//! document, derived from the document and rebuilt as a whole.
//!
//! Entities are the elements of the arrays under the top-level `gamestates` object; the
//! key of each array names its group. An element counts where it is an object whose `Key`
//! member is a relational reference; the target of that reference is the entity's ID.

use std::collections::HashMap;
use vstd::prelude::*;
use vstd::std_specs::hash::group_hash_axioms;
use crate::statics::{
    TI_FIELD_KEY_CAP, TI_FIELD_VALUE_CAP, TI_GAMESTATES, TI_PROP_DISPLAY_NAME,
    TI_PROP_EVENT_NAME, TI_PROP_NAME,
};
use crate::text::{str_eq, trimmed, trimmed_string};
use crate::value::{field, keys_unique, reference_target, views, TiValue, ValueView};

verus! {

broadcast use group_hash_axioms;

/// Mathematical content of an [`ObjectSummary`].
pub struct SummaryView {
    pub id: i64,
    pub display_name: Seq<char>,
    pub index_in_group: nat,
}

/// Mathematical content of a [`SaveIndex`].
pub struct IndexView {
    pub groups: Seq<Seq<char>>,
    pub objects_by_group: Seq<(Seq<char>, Seq<SummaryView>)>,
    pub id_lookup: Map<i64, (Seq<char>, nat)>,
    pub id_to_display_name: Map<i64, Seq<char>>,
}

/// One indexed entity: its ID, its display name and its position in the group's array.
#[derive(Debug, Clone)]
pub struct ObjectSummary {
    pub id: i64,
    pub display_name: String,
    pub index_in_group: usize,
}

/// Lookup tables over the entities of a document.
#[derive(Debug, Clone)]
pub struct SaveIndex {
    /// The group names, in document order.
    pub groups: Vec<String>,
    /// For each group whose value is an array, the summaries of its entities in array
    /// order. The groups stand in document order, each once.
    pub objects_by_group: Vec<(String, Vec<ObjectSummary>)>,
    /// For each entity ID, the group and the array position of the entity. Where an ID
    /// occurs more than once, the last occurrence in document order stands here.
    pub id_lookup: HashMap<i64, (String, usize)>,
    /// For each entity ID, the display name of that same entity.
    pub id_to_display_name: HashMap<i64, String>,
}

impl View for ObjectSummary {
    type V = SummaryView;

    open spec fn view(&self) -> SummaryView {
        SummaryView {
            id: self.id,
            display_name: self.display_name@,
            index_in_group: self.index_in_group as nat,
        }
    }
}

/// The views of a run of summaries, in order.
pub open spec fn summary_views(s: Seq<ObjectSummary>) -> Seq<SummaryView> {
    s.map_values(|o: ObjectSummary| o@)
}

impl View for SaveIndex {
    type V = IndexView;

    open spec fn view(&self) -> IndexView {
        IndexView {
            groups: self.groups@.map_values(|g: String| g@),
            objects_by_group: self.objects_by_group@.map_values(
                |e: (String, Vec<ObjectSummary>)| (e.0@, summary_views(e.1@)),
            ),
            id_lookup: Map::new(
                |id: i64| self.id_lookup@.contains_key(id),
                |id: i64| (self.id_lookup@[id].0@, self.id_lookup@[id].1 as nat),
            ),
            id_to_display_name: Map::new(
                |id: i64| self.id_to_display_name@.contains_key(id),
                |id: i64| self.id_to_display_name@[id]@,
            ),
        }
    }
}

/// Position of the first group named `group` among the recorded groups, or their number
/// where there is none.
pub open spec fn group_position(
    recorded: Seq<(Seq<char>, Seq<SummaryView>)>,
    group: Seq<char>,
) -> int
    decreases recorded.len(),
{
    if recorded.len() == 0 || recorded[0].0 == group {
        0
    } else {
        1 + group_position(recorded.drop_first(), group)
    }
}

/// The summaries recorded for `group`, if any.
pub open spec fn summaries_in(ix: IndexView, group: Seq<char>) -> Option<Seq<SummaryView>> {
    let k = group_position(ix.objects_by_group, group);
    if k < ix.objects_by_group.len() {
        Some(ix.objects_by_group[k].1)
    } else {
        None
    }
}

/// The index of a document without entities.
pub open spec fn empty_index() -> IndexView {
    IndexView {
        groups: Seq::empty(),
        objects_by_group: Seq::empty(),
        id_lookup: Map::empty(),
        id_to_display_name: Map::empty(),
    }
}

/// The ID of an array element: the target of its `Key` member, where the element is an
/// object and that member a relational reference.
pub open spec fn entity_id(item: ValueView) -> Option<i64> {
    match field(item, TI_FIELD_KEY_CAP@) {
        Some(key) => reference_target(key),
        None => None,
    }
}

/// The name that the property `key` of `props` offers: its text without surrounding
/// whitespace, where the property is a string and something is left of it.
pub open spec fn name_candidate(props: ValueView, key: Seq<char>) -> Option<Seq<char>> {
    match field(props, key) {
        Some(ValueView::String(s)) => if trimmed(s).len() > 0 {
            Some(trimmed(s))
        } else {
            None
        },
        _ => None,
    }
}

/// The display name among the properties `props`: the first that `displayName`, `name`
/// and `eventName` offer, in this order; empty where none does.
pub open spec fn display_name_in(props: ValueView) -> Seq<char> {
    match name_candidate(props, TI_PROP_DISPLAY_NAME@) {
        Some(n) => n,
        None => match name_candidate(props, TI_PROP_NAME@) {
            Some(n) => n,
            None => match name_candidate(props, TI_PROP_EVENT_NAME@) {
                Some(n) => n,
                None => Seq::empty(),
            },
        },
    }
}

/// The display name of an array element, taken from its `Value` member; empty where the
/// element has no such member.
pub open spec fn display_name_of(item: ValueView) -> Seq<char> {
    match field(item, TI_FIELD_VALUE_CAP@) {
        Some(props) => display_name_in(props),
        None => Seq::empty(),
    }
}

/// The summaries of the entities among the first `n` elements of a group's array.
pub open spec fn summaries_of(items: Seq<ValueView>, n: nat) -> Seq<SummaryView>
    decreases n,
{
    if n == 0 {
        Seq::empty()
    } else {
        let before = summaries_of(items, (n - 1) as nat);
        match entity_id(items[n - 1]) {
            Some(id) => before.push(
                SummaryView {
                    id,
                    display_name: display_name_of(items[n - 1]),
                    index_in_group: (n - 1) as nat,
                },
            ),
            None => before,
        }
    }
}

/// The index after element `i` of the array of `group` has been seen: an entity enters
/// both ID tables, replacing what stood there for its ID.
pub open spec fn index_with_item(
    ix: IndexView,
    group: Seq<char>,
    i: nat,
    item: ValueView,
) -> IndexView {
    match entity_id(item) {
        Some(id) => IndexView {
            id_lookup: ix.id_lookup.insert(id, (group, i)),
            id_to_display_name: ix.id_to_display_name.insert(id, display_name_of(item)),
            ..ix
        },
        None => ix,
    }
}

/// The index after the first `n` elements of the array of `group` have been seen.
pub open spec fn index_with_items(
    ix: IndexView,
    group: Seq<char>,
    items: Seq<ValueView>,
    n: nat,
) -> IndexView
    decreases n,
{
    if n == 0 {
        ix
    } else {
        index_with_item(
            index_with_items(ix, group, items, (n - 1) as nat),
            group,
            (n - 1) as nat,
            items[n - 1],
        )
    }
}

/// The index after a whole group has been seen: its name is listed, and where its value is
/// an array, its entities enter the ID tables and their summaries are recorded.
pub open spec fn index_with_group(ix: IndexView, name: Seq<char>, value: ValueView) -> IndexView {
    let listed = IndexView { groups: ix.groups.push(name), ..ix };
    match value {
        ValueView::Array(items) => {
            let filled = index_with_items(listed, name, items, items.len());
            IndexView {
                objects_by_group: filled.objects_by_group.push(
                    (name, summaries_of(items, items.len())),
                ),
                ..filled
            }
        },
        _ => listed,
    }
}

/// The index after the first `n` groups have been seen.
pub open spec fn index_of_groups(groups: Seq<(Seq<char>, ValueView)>, n: nat) -> IndexView
    decreases n,
{
    if n == 0 {
        empty_index()
    } else {
        index_with_group(
            index_of_groups(groups, (n - 1) as nat),
            groups[n - 1].0,
            groups[n - 1].1,
        )
    }
}

/// The index of a document: that of the groups under `gamestates`, and empty where the
/// document has no such object.
pub open spec fn index_of(root: ValueView) -> IndexView {
    match field(root, TI_GAMESTATES@) {
        Some(ValueView::Object(groups)) => index_of_groups(groups, groups.len()),
        _ => empty_index(),
    }
}

impl SaveIndex {
    /// An index without entries.
    pub fn empty() -> (r: SaveIndex)
        ensures
            r@ == empty_index(),
    {
        let r = SaveIndex {
            groups: Vec::new(),
            objects_by_group: Vec::new(),
            id_lookup: HashMap::new(),
            id_to_display_name: HashMap::new(),
        };
        proof {
            assert(r@.groups =~= Seq::empty());
            assert(r@.objects_by_group =~= Seq::empty());
            assert(r@.id_lookup =~= Map::empty());
            assert(r@.id_to_display_name =~= Map::empty());
        }
        r
    }
}

impl SaveIndex {
    /// The summaries of the entities of `group`, in array order; `None` for a group that
    /// the document lacks or whose value is no array.
    pub fn objects_in_group(&self, group: &str) -> (r: Option<&Vec<ObjectSummary>>)
        ensures
            match r {
                Some(list) => summaries_in(self@, group@) == Some(summary_views(list@)),
                None => summaries_in(self@, group@).is_none(),
            },
    {
        let ghost recorded = self@.objects_by_group;
        let mut k: usize = 0;
        assert(recorded.skip(0) =~= recorded);
        while k < self.objects_by_group.len()
            invariant
                k <= self.objects_by_group@.len(),
                recorded == self@.objects_by_group,
                recorded.len() == self.objects_by_group@.len(),
                group_position(recorded, group@) == k + group_position(
                    recorded.skip(k as int),
                    group@,
                ),
            decreases self.objects_by_group@.len() - k,
        {
            assert(recorded.skip(k as int)[0] == recorded[k as int]);
            if str_eq(self.objects_by_group[k].0.as_str(), group) {
                return Some(&self.objects_by_group[k].1);
            }
            assert(recorded.skip(k as int).drop_first() =~= recorded.skip(k + 1));
            k = k + 1;
        }
        None
    }
}

/// The ID of an array element, as [`entity_id`] defines it.
pub fn entity_id_of(item: &TiValue) -> (r: Option<i64>)
    ensures
        r == entity_id(item@),
{
    match item.get(TI_FIELD_KEY_CAP) {
        Some(key) => key.is_relational_ref(),
        None => None,
    }
}

fn candidate_name(props: &TiValue, key: &str) -> (r: Option<String>)
    ensures
        match r {
            Some(n) => name_candidate(props@, key@) == Some(n@),
            None => name_candidate(props@, key@).is_none(),
        },
{
    match props.get(key) {
        Some(v) => match v.as_str() {
            Some(s) => {
                let t = trimmed_string(s);
                if t.as_str().is_empty() {
                    None
                } else {
                    Some(t)
                }
            },
            None => None,
        },
        None => None,
    }
}

/// The display name of an array element, as [`display_name_of`] defines it.
pub fn display_name_for(item: &TiValue) -> (r: String)
    ensures
        r@ == display_name_of(item@),
{
    match item.get(TI_FIELD_VALUE_CAP) {
        Some(props) => {
            if let Some(n) = candidate_name(props, TI_PROP_DISPLAY_NAME) {
                return n;
            }
            if let Some(n) = candidate_name(props, TI_PROP_NAME) {
                return n;
            }
            if let Some(n) = candidate_name(props, TI_PROP_EVENT_NAME) {
                return n;
            }
            String::new()
        },
        None => String::new(),
    }
}

/// Enters element `idx` of the array of `group` into the ID tables and, where it is an
/// entity, appends its summary.
fn index_item(
    index: &mut SaveIndex,
    summaries: &mut Vec<ObjectSummary>,
    group: &String,
    idx: usize,
    item: &TiValue,
    Ghost(items): Ghost<Seq<ValueView>>,
)
    requires
        idx < items.len(),
        items[idx as int] == item@,
        summary_views(old(summaries)@) == summaries_of(items, idx as nat),
    ensures
        final(index)@ == index_with_item(old(index)@, group@, idx as nat, item@),
        summary_views(final(summaries)@) == summaries_of(items, (idx + 1) as nat),
{
    match entity_id_of(item) {
        Some(id) => {
            let display_name = display_name_for(item);
            let ghost before = index@;
            index.id_lookup.insert(id, (group.clone(), idx));
            index.id_to_display_name.insert(id, display_name.clone());
            proof {
                assert(index@.groups == before.groups);
                assert(index@.objects_by_group == before.objects_by_group);
                assert(index@.id_lookup =~= before.id_lookup.insert(id, (group@, idx as nat)));
                assert(index@.id_to_display_name =~= before.id_to_display_name.insert(
                    id,
                    display_name@,
                ));
            }
            let ghost listed = summaries@;
            let summary = ObjectSummary { id, display_name, index_in_group: idx };
            summaries.push(summary);
            assert(summary_views(summaries@) =~= summary_views(listed).push(summary@));
        },
        None => {},
    }
}

/// Builds the index of a document in one pass over the groups under `gamestates`. A
/// document without that object has an empty index; elements that are no entities are
/// passed over; of two entities with one ID the later one stays in the ID tables.
pub fn build_index(root: &TiValue) -> (index: SaveIndex)
    ensures
        index@ == index_of(root@),
{
    let mut index = SaveIndex::empty();
    let gamestates = match root.get(TI_GAMESTATES) {
        Some(v) => match v.as_object() {
            Some(map) => map,
            None => {
                return index;
            },
        },
        None => {
            return index;
        },
    };
    let ghost groups = gamestates@;
    let n = gamestates.len();
    let mut g: usize = 0;
    while g < n
        invariant
            g <= n,
            n == groups.len(),
            groups == gamestates@,
            index@ == index_of_groups(groups, g as nat),
        decreases n - g,
    {
        let group = gamestates.key_at(g);
        let listitems = gamestates.value_at(g);
        let ghost before = index@;
        index.groups.push(group.clone());
        let ghost listed = IndexView { groups: before.groups.push(group@), ..before };
        proof {
            assert(index@.groups =~= listed.groups);
            assert(index@.objects_by_group == listed.objects_by_group);
            assert(index@.id_lookup =~= listed.id_lookup);
            assert(index@.id_to_display_name =~= listed.id_to_display_name);
        }
        match listitems.as_array() {
            Some(items) => {
                let ghost item_views = views(items@);
                let mut summaries: Vec<ObjectSummary> = Vec::new();
                assert(summary_views(summaries@) =~= summaries_of(item_views, 0));
                let count = items.len();
                let mut idx: usize = 0;
                while idx < count
                    invariant
                        idx <= count,
                        count == items@.len(),
                        item_views == views(items@),
                        index@ == index_with_items(listed, group@, item_views, idx as nat),
                        summary_views(summaries@) == summaries_of(item_views, idx as nat),
                    decreases count - idx,
                {
                    index_item(
                        &mut index,
                        &mut summaries,
                        group,
                        idx,
                        &items[idx],
                        Ghost(item_views),
                    );
                    idx = idx + 1;
                }
                let ghost filled = index@;
                let ghost recorded = index.objects_by_group@;
                index.objects_by_group.push((group.clone(), summaries));
                proof {
                    assert(index@.groups == filled.groups);
                    assert(index@.objects_by_group =~= filled.objects_by_group.push(
                        (group@, summaries_of(item_views, count as nat)),
                    ));
                    assert(index@.id_lookup =~= filled.id_lookup);
                    assert(index@.id_to_display_name =~= filled.id_to_display_name);
                }
            },
            None => {},
        }
        g = g + 1;
    }
    index
}

/// The elements of a group: those of its array, none where the group's value is no array.
pub open spec fn group_items(value: ValueView) -> Seq<ValueView> {
    match value {
        ValueView::Array(items) => items,
        _ => Seq::empty(),
    }
}

/// Position of the last entity with ID `id` among the first `n` elements, if there is one.
pub open spec fn last_entity_before(items: Seq<ValueView>, n: nat, id: i64) -> Option<nat>
    decreases n,
{
    if n == 0 {
        None
    } else if entity_id(items[n - 1]) == Some(id) {
        Some((n - 1) as nat)
    } else {
        last_entity_before(items, (n - 1) as nat, id)
    }
}

/// Group and position of the last entity with ID `id` among the first `n` groups, in
/// document order, if there is one.
pub open spec fn last_occurrence(groups: Seq<(Seq<char>, ValueView)>, n: nat, id: i64) -> Option<
    (nat, nat),
>
    decreases n,
{
    if n == 0 {
        None
    } else {
        let items = group_items(groups[n - 1].1);
        match last_entity_before(items, items.len(), id) {
            Some(i) => Some(((n - 1) as nat, i)),
            None => last_occurrence(groups, (n - 1) as nat, id),
        }
    }
}

/// `last_entity_before` names an entity with the ID, and no later element among the first
/// `n` is one; where it names none, no element among them is.
pub proof fn lemma_last_entity_before(items: Seq<ValueView>, n: nat, id: i64)
    ensures
        match last_entity_before(items, n, id) {
            Some(i) => i < n && entity_id(items[i as int]) == Some(id) && forall|j: int|
                i < j < n ==> entity_id(#[trigger] items[j]) != Some(id),
            None => forall|j: int| 0 <= j < n ==> entity_id(#[trigger] items[j]) != Some(id),
        },
    decreases n,
{
    if n > 0 {
        lemma_last_entity_before(items, (n - 1) as nat, id);
    }
}

/// `last_occurrence` names an entity with the ID, and none stands behind it in document
/// order among the first `n` groups; where it names none, those groups hold no such
/// entity.
pub proof fn lemma_last_occurrence(groups: Seq<(Seq<char>, ValueView)>, n: nat, id: i64)
    requires
        n <= groups.len(),
    ensures
        match last_occurrence(groups, n, id) {
            Some((g, i)) => {
                &&& g < n
                &&& i < group_items(groups[g as int].1).len()
                &&& entity_id(group_items(groups[g as int].1)[i as int]) == Some(id)
                &&& forall|h: int, j: int|
                    0 <= h < n && 0 <= j < group_items(groups[h].1).len() && entity_id(
                        #[trigger] group_items(groups[h].1)[j],
                    ) == Some(id) ==> h < g || (h == g && j <= i)
            },
            None => forall|h: int, j: int|
                0 <= h < n && 0 <= j < group_items(groups[h].1).len() ==> entity_id(
                    #[trigger] group_items(groups[h].1)[j],
                ) != Some(id),
        },
    decreases n,
{
    if n > 0 {
        let items = group_items(groups[n - 1].1);
        lemma_last_entity_before(items, items.len(), id);
        lemma_last_occurrence(groups, (n - 1) as nat, id);
    }
}

/// Seeing the elements of one group changes the ID tables for the IDs of its entities, to
/// the last entity of each ID, and for no other ID; the lists of the index stay.
pub proof fn lemma_index_with_items(
    ix: IndexView,
    group: Seq<char>,
    items: Seq<ValueView>,
    n: nat,
    id: i64,
)
    ensures
        index_with_items(ix, group, items, n).groups == ix.groups,
        index_with_items(ix, group, items, n).objects_by_group == ix.objects_by_group,
        match last_entity_before(items, n, id) {
            Some(i) => {
                let after = index_with_items(ix, group, items, n);
                &&& after.id_lookup.contains_key(id)
                &&& after.id_lookup[id] == (group, i)
                &&& after.id_to_display_name.contains_key(id)
                &&& after.id_to_display_name[id] == display_name_of(items[i as int])
            },
            None => {
                let after = index_with_items(ix, group, items, n);
                &&& after.id_lookup.contains_key(id) == ix.id_lookup.contains_key(id)
                &&& after.id_lookup[id] == ix.id_lookup[id]
                &&& after.id_to_display_name.contains_key(id)
                    == ix.id_to_display_name.contains_key(id)
                &&& after.id_to_display_name[id] == ix.id_to_display_name[id]
            },
        },
    decreases n,
{
    if n > 0 {
        lemma_index_with_items(ix, group, items, (n - 1) as nat, id);
    }
}

/// The index lists the groups in document order, and its ID tables know exactly the IDs
/// of the entities: each ID leads to the group and position of the last entity that
/// carries it, and to the display name of that entity.
pub proof fn lemma_index_follows_last_occurrence(
    groups: Seq<(Seq<char>, ValueView)>,
    n: nat,
    id: i64,
)
    requires
        n <= groups.len(),
    ensures
        index_of_groups(groups, n).groups == Seq::new(n, |g: int| groups[g].0),
        match last_occurrence(groups, n, id) {
            Some((g, i)) => {
                let ix = index_of_groups(groups, n);
                &&& ix.id_lookup.contains_key(id)
                &&& ix.id_lookup[id] == (groups[g as int].0, i)
                &&& ix.id_to_display_name.contains_key(id)
                &&& ix.id_to_display_name[id] == display_name_of(
                    group_items(groups[g as int].1)[i as int],
                )
            },
            None => {
                let ix = index_of_groups(groups, n);
                &&& !ix.id_lookup.contains_key(id)
                &&& !ix.id_to_display_name.contains_key(id)
            },
        },
    decreases n,
{
    if n > 0 {
        let m = (n - 1) as nat;
        lemma_index_follows_last_occurrence(groups, m, id);
        let before = index_of_groups(groups, m);
        let name = groups[m as int].0;
        let listed = IndexView { groups: before.groups.push(name), ..before };
        let items = group_items(groups[m as int].1);
        match groups[m as int].1 {
            ValueView::Array(_) => {
                lemma_index_with_items(listed, name, items, items.len(), id);
            },
            _ => {},
        }
        assert(index_of_groups(groups, n).groups =~= Seq::new(n, |g: int| groups[g].0));
    } else {
        assert(index_of_groups(groups, n).groups =~= Seq::new(n, |g: int| groups[g].0));
    }
}

/// The summaries of a group are those of its entities, in array order: each names an
/// element that carries its ID and has its display name, and every entity has its summary.
pub proof fn lemma_summaries_describe_entities(items: Seq<ValueView>, n: nat)
    requires
        n <= items.len(),
    ensures
        forall|k: int|
            0 <= k < summaries_of(items, n).len() ==> {
                let s = #[trigger] summaries_of(items, n)[k];
                &&& s.index_in_group < n
                &&& entity_id(items[s.index_in_group as int]) == Some(s.id)
                &&& s.display_name == display_name_of(items[s.index_in_group as int])
            },
        forall|k: int, l: int|
            0 <= k < l < summaries_of(items, n).len() ==> (#[trigger] summaries_of(
                items,
                n,
            )[k]).index_in_group < (#[trigger] summaries_of(items, n)[l]).index_in_group,
        forall|i: int|
            0 <= i < n && entity_id(#[trigger] items[i]).is_some() ==> exists|k: int|
                0 <= k < summaries_of(items, n).len() && (#[trigger] summaries_of(
                    items,
                    n,
                )[k]).index_in_group == i,
    decreases n,
{
    if n > 0 {
        let m = (n - 1) as nat;
        lemma_summaries_describe_entities(items, m);
        let before = summaries_of(items, m);
        let after = summaries_of(items, n);
        assert forall|i: int| 0 <= i < n && entity_id(#[trigger] items[i]).is_some() implies exists|
            k: int,
        |
            0 <= k < after.len() && (#[trigger] after[k]).index_in_group == i by {
            if i < m {
                let k = choose|k: int|
                    0 <= k < before.len() && (#[trigger] before[k]).index_in_group == i;
                assert(after[k] == before[k]);
            } else {
                assert(after[after.len() - 1].index_in_group == i);
            }
        }
    }
}

/// Number of groups among the first `n` whose value is an array.
pub open spec fn array_group_count(groups: Seq<(Seq<char>, ValueView)>, n: nat) -> nat
    decreases n,
{
    if n == 0 {
        0
    } else {
        array_group_count(groups, (n - 1) as nat) + if groups[n - 1].1 is Array {
            1nat
        } else {
            0nat
        }
    }
}

/// The group table holds one entry for each group whose value is an array, in document
/// order: the entry of such a group stands behind those of the array groups before it and
/// holds the group's name and the summaries of its entities.
pub proof fn lemma_group_table(groups: Seq<(Seq<char>, ValueView)>, n: nat)
    requires
        n <= groups.len(),
    ensures
        index_of_groups(groups, n).objects_by_group.len() == array_group_count(groups, n),
        forall|j: int|
            0 <= j < n && (#[trigger] groups[j]).1 is Array ==> array_group_count(
                groups,
                j as nat,
            ) < array_group_count(groups, n) && index_of_groups(
                groups,
                n,
            ).objects_by_group[array_group_count(groups, j as nat) as int] == (
                groups[j].0,
                summaries_of(group_items(groups[j].1), group_items(groups[j].1).len()),
            ),
    decreases n,
{
    if n > 0 {
        let m = (n - 1) as nat;
        lemma_group_table(groups, m);
        let before = index_of_groups(groups, m);
        let after = index_of_groups(groups, n);
        let name = groups[m as int].0;
        let listed = IndexView { groups: before.groups.push(name), ..before };
        let items = group_items(groups[m as int].1);
        if groups[m as int].1 is Array {
            lemma_index_with_items(listed, name, items, items.len(), 0);
            assert(after.objects_by_group == before.objects_by_group.push(
                (name, summaries_of(items, items.len())),
            ));
        } else {
            assert(after.objects_by_group == before.objects_by_group);
        }
        assert forall|j: int| 0 <= j < n && (#[trigger] groups[j]).1 is Array implies array_group_count(
            groups,
            j as nat,
        ) < array_group_count(groups, n) && after.objects_by_group[array_group_count(
            groups,
            j as nat,
        ) as int] == (
            groups[j].0,
            summaries_of(group_items(groups[j].1), group_items(groups[j].1).len()),
        ) by {
            if j < m {
                assert(before.objects_by_group[array_group_count(groups, j as nat) as int]
                    == after.objects_by_group[array_group_count(groups, j as nat) as int]);
            }
        }
    }
}

/// The group among the first `n` whose entry stands at position `p` of the group table;
/// `-1` where the table is shorter.
pub open spec fn array_group_at(groups: Seq<(Seq<char>, ValueView)>, n: nat, p: int) -> int
    decreases n,
{
    if n == 0 {
        -1
    } else if groups[n - 1].1 is Array && array_group_count(groups, (n - 1) as nat) == p {
        n - 1
    } else {
        array_group_at(groups, (n - 1) as nat, p)
    }
}

/// Every position of the group table belongs to a group whose value is an array.
proof fn lemma_array_group_at(groups: Seq<(Seq<char>, ValueView)>, n: nat, p: int)
    requires
        0 <= p < array_group_count(groups, n),
    ensures
        0 <= array_group_at(groups, n, p) < n,
        groups[array_group_at(groups, n, p)].1 is Array,
        array_group_count(groups, array_group_at(groups, n, p) as nat) == p,
    decreases n,
{
    if n > 0 {
        if groups[n - 1].1 is Array && array_group_count(groups, (n - 1) as nat) == p {
        } else {
            lemma_array_group_at(groups, (n - 1) as nat, p);
        }
    }
}

/// What `group_position` finds is where the name first occurs.
proof fn lemma_group_position(recorded: Seq<(Seq<char>, Seq<SummaryView>)>, group: Seq<char>)
    ensures
        0 <= group_position(recorded, group) <= recorded.len(),
        group_position(recorded, group) < recorded.len() ==> recorded[group_position(
            recorded,
            group,
        )].0 == group,
        forall|i: int|
            0 <= i < group_position(recorded, group) ==> (#[trigger] recorded[i]).0 != group,
    decreases recorded.len(),
{
    if recorded.len() == 0 || recorded[0].0 == group {
    } else {
        let rest = recorded.drop_first();
        lemma_group_position(rest, group);
        assert forall|i: int| 0 <= i < group_position(recorded, group) implies (
        #[trigger] recorded[i]).0 != group by {
            if i > 0 {
                assert(recorded[i] == rest[i - 1]);
            }
        }
    }
}

/// In a document whose group names are unique, the summaries recorded under a name are
/// those of the entities of the group of that name, where its value is an array; under any
/// other name nothing is recorded.
pub proof fn lemma_summaries_in_group(
    groups: Seq<(Seq<char>, ValueView)>,
    group: Seq<char>,
)
    requires
        keys_unique(groups),
    ensures
        forall|k: int|
            0 <= k < groups.len() && (#[trigger] groups[k]).0 == group && groups[k].1 is Array
                ==> summaries_in(index_of_groups(groups, groups.len()), group) == Some(
                summaries_of(group_items(groups[k].1), group_items(groups[k].1).len()),
            ),
        (forall|k: int|
            0 <= k < groups.len() && (#[trigger] groups[k]).0 == group ==> !(groups[k].1
                is Array)) ==> summaries_in(index_of_groups(groups, groups.len()), group).is_none(),
{
    let n = groups.len();
    let recorded = index_of_groups(groups, n).objects_by_group;
    lemma_group_table(groups, n);
    lemma_group_position(recorded, group);
    let q = group_position(recorded, group);
    if q < recorded.len() {
        // What stands at `q` is the entry of some array group, and that group has the name.
        lemma_array_group_at(groups, n, q);
        let j = array_group_at(groups, n, q);
        assert(recorded[q] == (
            groups[j].0,
            summaries_of(group_items(groups[j].1), group_items(groups[j].1).len()),
        ));
        assert forall|k: int|
            0 <= k < groups.len() && (#[trigger] groups[k]).0 == group && groups[k].1
                is Array implies summaries_in(index_of_groups(groups, n), group) == Some(
            summaries_of(group_items(groups[k].1), group_items(groups[k].1).len()),
        ) by {
            if k != j {
                if k < j {
                    assert(groups[k].0 != groups[j].0);
                } else {
                    assert(groups[j].0 != groups[k].0);
                }
            }
        }
    } else {
        assert forall|k: int|
            0 <= k < groups.len() && (#[trigger] groups[k]).0 == group implies !(groups[k].1
            is Array) by {
            if groups[k].1 is Array {
                let p = array_group_count(groups, k as nat) as int;
                assert(recorded[p].0 == group);
            }
        }
    }
}

} // verus!
