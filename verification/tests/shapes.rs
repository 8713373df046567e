use tise::index::build_index;
use tise::number::TiNumber;
use tise::shape::{array_of_relational_refs, is_scalar_value, is_simple_list, is_simple_object};
use tise::value::{ObjectMap, TiValue};

fn reference(id: i64) -> TiValue {
    let mut map = ObjectMap::new();
    map.insert("$type".to_string(), TiValue::String("X".to_string()));
    map.insert("value".to_string(), TiValue::Number(TiNumber::I64(id)));
    TiValue::Object(map)
}

#[test]
fn is_simple_list_accepts_primitives_only() {
    assert!(is_simple_list(&[
        TiValue::Null,
        TiValue::Bool(true),
        TiValue::Number(TiNumber::I64(1)),
        TiValue::String("x".to_string()),
    ]));
    assert!(!is_simple_list(&[TiValue::Array(vec![])]));
    assert!(!is_simple_list(&[TiValue::Object(ObjectMap::new())]));
}

#[test]
fn is_simple_object_accepts_nonempty_primitives_only() {
    let mut map = ObjectMap::new();
    map.insert("a".to_string(), TiValue::Null);
    map.insert("b".to_string(), TiValue::Bool(false));
    map.insert("c".to_string(), TiValue::Number(TiNumber::U64(2)));
    map.insert("d".to_string(), TiValue::String("y".to_string()));
    assert!(is_simple_object(&map));

    let mut map2 = ObjectMap::new();
    map2.insert("a".to_string(), TiValue::Array(vec![]));
    assert!(!is_simple_object(&map2));

    let map3 = ObjectMap::new();
    assert!(!is_simple_object(&map3));
}

#[test]
fn simple_list_edge_cases() {
    assert!(is_simple_list(&[]));
    assert!(!is_simple_list(&[TiValue::Null, TiValue::Array(vec![]), TiValue::Null]));
    assert!(!is_simple_list(&[TiValue::Null, reference(1)]));
    assert!(is_scalar_value(&TiValue::Null));
    assert!(is_scalar_value(&TiValue::String(String::new())));
    assert!(!is_scalar_value(&TiValue::Array(vec![])));
    assert!(!is_scalar_value(&reference(1)));
}

#[test]
fn simple_object_needs_every_value_scalar() {
    let mut map = ObjectMap::new();
    map.insert("a".to_string(), TiValue::Null);
    map.insert("b".to_string(), reference(1));
    map.insert("c".to_string(), TiValue::Null);
    assert!(!is_simple_object(&map));
    map.shift_remove("b");
    assert!(is_simple_object(&map));
}

#[test]
fn arrays_of_references_give_their_targets() {
    let refs = TiValue::Array(vec![reference(3), reference(-1), reference(3)]);
    assert_eq!(array_of_relational_refs(&refs), Some(vec![3, -1, 3]));
    assert_eq!(array_of_relational_refs(&TiValue::Array(vec![])), None);
    assert_eq!(
        array_of_relational_refs(&TiValue::Array(vec![reference(1), TiValue::Null])),
        None
    );
    assert_eq!(
        array_of_relational_refs(&TiValue::Array(vec![TiValue::Number(TiNumber::I64(1))])),
        None
    );
    assert_eq!(array_of_relational_refs(&reference(1)), None);
    assert_eq!(array_of_relational_refs(&TiValue::Null), None);
}

#[test]
fn summaries_are_found_by_group_name() {
    let mut entry = ObjectMap::new();
    entry.insert("Key".to_string(), reference(7));
    let mut groups = ObjectMap::new();
    groups.insert("A".to_string(), TiValue::Array(vec![TiValue::Object(entry)]));
    groups.insert("B".to_string(), TiValue::Null);
    groups.insert("C".to_string(), TiValue::Array(vec![]));
    let mut root = ObjectMap::new();
    root.insert("gamestates".to_string(), TiValue::Object(groups));
    let index = build_index(&TiValue::Object(root));

    let a = index.objects_in_group("A").unwrap();
    assert_eq!(a.len(), 1);
    assert_eq!((a[0].id, a[0].display_name.as_str(), a[0].index_in_group), (7, "", 0));
    assert!(index.objects_in_group("B").is_none());
    assert_eq!(index.objects_in_group("C").map(|l| l.len()), Some(0));
    assert!(index.objects_in_group("D").is_none());
    assert!(index.objects_in_group("").is_none());
}
