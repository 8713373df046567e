use tise::index::{build_index, display_name_for, entity_id_of, SaveIndex};
use tise::number::{TiFloat, TiNumber};
use tise::save::LoadedSave;
use tise::statics;
use tise::value::{ObjectMap, TiValue};

fn object(entries: Vec<(&str, TiValue)>) -> TiValue {
    let mut map = ObjectMap::new();
    for (k, v) in entries {
        map.insert(k.to_string(), v);
    }
    TiValue::Object(map)
}

fn text(s: &str) -> TiValue {
    TiValue::String(s.to_string())
}

fn reference(id: i64) -> TiValue {
    object(vec![(statics::TI_REF_FIELD_VALUE, TiValue::Number(TiNumber::I64(id)))])
}

fn entity(id: i64, props: Vec<(&str, TiValue)>) -> TiValue {
    object(vec![
        (statics::TI_FIELD_KEY_CAP, reference(id)),
        (statics::TI_FIELD_VALUE_CAP, object(props)),
    ])
}

fn document(groups: Vec<(&str, TiValue)>) -> TiValue {
    object(vec![(statics::TI_GAMESTATES, object(groups))])
}

#[test]
fn build_index_extracts_ids_and_display_names() {
    // A minimal document of the expected shape:
    // { gamestates: { Group: [ { Key: {value: 1}, Value: {displayName: "X"} } ... ] } }
    let make_entry = |id: i64, props: ObjectMap| {
        let mut entry = ObjectMap::new();

        let mut key_ref = ObjectMap::new();
        key_ref.insert(
            statics::TI_REF_FIELD_VALUE.to_string(),
            TiValue::Number(TiNumber::I64(id)),
        );
        entry.insert(
            statics::TI_FIELD_KEY_CAP.to_string(),
            TiValue::Object(key_ref),
        );

        entry.insert(
            statics::TI_FIELD_VALUE_CAP.to_string(),
            TiValue::Object(props),
        );

        TiValue::Object(entry)
    };

    let mut props1 = ObjectMap::new();
    props1.insert(
        statics::TI_PROP_DISPLAY_NAME.to_string(),
        TiValue::String("X".to_string()),
    );

    let mut props2 = ObjectMap::new();
    props2.insert(
        statics::TI_PROP_DISPLAY_NAME.to_string(),
        TiValue::String("".to_string()),
    );
    props2.insert(
        statics::TI_PROP_NAME.to_string(),
        TiValue::String("Name".to_string()),
    );

    let mut props3 = ObjectMap::new();
    props3.insert(
        statics::TI_PROP_EVENT_NAME.to_string(),
        TiValue::String("Event".to_string()),
    );

    let props4 = ObjectMap::new();

    let group = "PavonisInteractive.TerraInvicta.TITest";
    let mut gamestates = ObjectMap::new();
    gamestates.insert(
        group.to_string(),
        TiValue::Array(vec![
            make_entry(1, props1),
            make_entry(2, props2),
            make_entry(3, props3),
            make_entry(4, props4),
        ]),
    );

    let mut root = ObjectMap::new();
    root.insert(
        statics::TI_GAMESTATES.to_string(),
        TiValue::Object(gamestates),
    );

    let index = build_index(&TiValue::Object(root));
    assert_eq!(index.groups, vec![group.to_string()]);
    assert_eq!(index.id_lookup.get(&1).unwrap().0, group);
    assert_eq!(index.id_to_display_name.get(&1).unwrap(), "X");
    assert_eq!(index.id_to_display_name.get(&2).unwrap(), "Name");
    assert_eq!(index.id_to_display_name.get(&3).unwrap(), "Event");
    assert_eq!(index.id_to_display_name.get(&4).unwrap(), "");
}

#[test]
fn empty_index_has_no_entries() {
    let index = SaveIndex::empty();
    assert!(index.groups.is_empty());
    assert!(index.objects_by_group.is_empty());
    assert!(index.id_lookup.is_empty());
    assert!(index.id_to_display_name.is_empty());
}

#[test]
fn documents_without_gamestates_have_an_empty_index() {
    for root in [
        TiValue::Null,
        TiValue::Array(vec![]),
        object(vec![]),
        object(vec![("gamestates", TiValue::Array(vec![entity(1, vec![])]))]),
        object(vec![("gamestates", text("x"))]),
        object(vec![("Gamestates", object(vec![("G", TiValue::Array(vec![entity(1, vec![])]))]))]),
    ] {
        let index = build_index(&root);
        assert!(index.groups.is_empty());
        assert!(index.objects_by_group.is_empty());
        assert!(index.id_lookup.is_empty());
        assert!(index.id_to_display_name.is_empty());
    }
}

#[test]
fn index_records_positions_and_skips_what_is_no_entity() {
    let root = document(vec![
        (
            "A",
            TiValue::Array(vec![
                entity(10, vec![("displayName", text(" Ten "))]),
                TiValue::Null,
                object(vec![("Value", object(vec![("name", text("no key"))]))]),
                object(vec![("Key", object(vec![("value", text("11"))]))]),
                object(vec![
                    ("Key", object(vec![(
                        "value",
                        TiValue::Number(TiNumber::F64(TiFloat::new(
                            1.25_f64.to_bits(),
                            "1.25".to_string(),
                            "1.25e0".to_string(),
                        ))),
                    )])),
                ]),
                object(vec![("Key", reference(12))]),
                entity(13, vec![("name", text("Thirteen"))]),
            ]),
        ),
        ("NotAList", object(vec![])),
        ("B", TiValue::Array(vec![])),
        ("C", TiValue::Array(vec![entity(20, vec![("eventName", text("Twenty"))])])),
    ]);
    let index = build_index(&root);
    assert_eq!(index.groups, vec!["A", "NotAList", "B", "C"]);

    let listed: Vec<&str> = index.objects_by_group.iter().map(|(g, _)| g.as_str()).collect();
    assert_eq!(listed, vec!["A", "B", "C"]);
    let a: Vec<(i64, &str, usize)> = index.objects_by_group[0]
        .1
        .iter()
        .map(|s| (s.id, s.display_name.as_str(), s.index_in_group))
        .collect();
    assert_eq!(a, vec![(10, "Ten", 0), (12, "", 5), (13, "Thirteen", 6)]);
    assert!(index.objects_by_group[1].1.is_empty());
    let c: Vec<(i64, &str, usize)> = index.objects_by_group[2]
        .1
        .iter()
        .map(|s| (s.id, s.display_name.as_str(), s.index_in_group))
        .collect();
    assert_eq!(c, vec![(20, "Twenty", 0)]);

    assert_eq!(index.id_lookup.len(), 4);
    assert_eq!(index.id_lookup.get(&10), Some(&("A".to_string(), 0)));
    assert_eq!(index.id_lookup.get(&12), Some(&("A".to_string(), 5)));
    assert_eq!(index.id_lookup.get(&13), Some(&("A".to_string(), 6)));
    assert_eq!(index.id_lookup.get(&20), Some(&("C".to_string(), 0)));
    assert_eq!(index.id_to_display_name.len(), 4);
    assert_eq!(index.id_to_display_name.get(&10).unwrap(), "Ten");
    assert_eq!(index.id_to_display_name.get(&12).unwrap(), "");
}

#[test]
fn later_entity_wins_a_duplicate_id() {
    let root = document(vec![
        (
            "A",
            TiValue::Array(vec![
                entity(1, vec![("name", text("first"))]),
                entity(1, vec![("name", text("second"))]),
            ]),
        ),
        ("B", TiValue::Array(vec![TiValue::Null, entity(1, vec![("name", text("third"))])])),
        ("C", TiValue::Array(vec![entity(2, vec![])])),
    ]);
    let index = build_index(&root);
    assert_eq!(index.id_lookup.get(&1), Some(&("B".to_string(), 1)));
    assert_eq!(index.id_to_display_name.get(&1).unwrap(), "third");
    assert_eq!(index.objects_by_group[0].1.len(), 2);
    assert_eq!(index.objects_by_group[1].1.len(), 1);
}

#[test]
fn display_name_falls_through_the_candidates() {
    let name = |props: Vec<(&str, TiValue)>| display_name_for(&entity(1, props));
    assert_eq!(name(vec![("displayName", text("D")), ("name", text("N"))]), "D");
    assert_eq!(name(vec![("name", text("N")), ("displayName", text("D"))]), "D");
    assert_eq!(name(vec![("displayName", text("  ")), ("name", text("N"))]), "N");
    assert_eq!(name(vec![("displayName", TiValue::Null), ("name", text(" N\t"))]), "N");
    assert_eq!(
        name(vec![("displayName", text("")), ("name", text("")), ("eventName", text("E"))]),
        "E"
    );
    assert_eq!(name(vec![("eventName", TiValue::Bool(true))]), "");
    assert_eq!(name(vec![("familyName", text("F"))]), "");
    assert_eq!(name(vec![]), "");
    assert_eq!(display_name_for(&object(vec![("Key", reference(1))])), "");
    assert_eq!(display_name_for(&object(vec![("Value", text("x"))])), "");
    assert_eq!(display_name_for(&TiValue::Null), "");
}

#[test]
fn entity_id_is_the_target_of_the_key() {
    assert_eq!(entity_id_of(&entity(5, vec![])), Some(5));
    assert_eq!(entity_id_of(&object(vec![("Key", reference(-7))])), Some(-7));
    assert_eq!(entity_id_of(&object(vec![("key", reference(5))])), None);
    assert_eq!(entity_id_of(&object(vec![("Key", text("5"))])), None);
    assert_eq!(entity_id_of(&TiValue::Array(vec![reference(5)])), None);
    assert_eq!(
        entity_id_of(&object(vec![(
            "Key",
            object(vec![("value", TiValue::Number(TiNumber::U64(u64::MAX)))])
        )])),
        None
    );
}

#[test]
fn group_display_name_strips_the_common_namespace() {
    assert_eq!(
        LoadedSave::group_display_name("PavonisInteractive.TerraInvicta.TICouncilorState"),
        "TICouncilorState"
    );
    assert_eq!(LoadedSave::group_display_name("Other.TIThing"), "Other.TIThing");
    assert_eq!(LoadedSave::group_display_name("PavonisInteractive.TerraInvicta."), "");
    assert_eq!(
        LoadedSave::group_display_name("PavonisInteractive.TerraInvicta"),
        "PavonisInteractive.TerraInvicta"
    );
    assert_eq!(
        LoadedSave::group_display_name("xPavonisInteractive.TerraInvicta.T"),
        "xPavonisInteractive.TerraInvicta.T"
    );
    assert_eq!(
        LoadedSave::group_display_name("PavonisInteractive.TerraInvicta.\u{e9}t\u{e9}"),
        "\u{e9}t\u{e9}"
    );
    assert_eq!(LoadedSave::group_display_name(""), "");
    assert_eq!(
        statics::TI_GROUP_COUNCILOR_STATE,
        "PavonisInteractive.TerraInvicta.TICouncilorState"
    );
}
