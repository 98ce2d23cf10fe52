use spyglass::popup::{Popup, Popups};
use spyglass::shape::NumKind;
use spyglass::shell::Spyglass;
use spyglass::snapshot::{
    apply_entity_state, collect_entity_state, Component, EntityComponents, LiveEntity, LiveStore,
    SelectedEntity,
};
use spyglass::synth::{default_of, default_variant_value};
use spyglass::shape::{FieldShape, TypeRegistry, TypeShape, VariantData, VariantShape};
use spyglass::text::{fmt_int, fmt_u64, parse_int, str_eq, str_le};
use spyglass::value::{CompositeKind, FieldVal, Payload, Value};
use spyglass::widget::WidgetId;

fn demo_store() -> LiveStore {
    LiveStore {
        entities: vec![LiveEntity {
            id: 7,
            name: "player".to_string(),
            components: vec![
                Component {
                    name: "demo::Velocity".to_string(),
                    repr: Some(Value::Num { kind: NumKind::I64, value: -4 }),
                },
                Component { name: "demo::Marker".to_string(), repr: None },
                Component {
                    name: "demo::Health".to_string(),
                    repr: Some(Value::Num { kind: NumKind::U32, value: 100 }),
                },
            ],
        }],
    }
}

#[test]
fn snapshot_names_are_sorted() {
    let store = demo_store();
    let snap = EntityComponents::from_entity(&store, 7).unwrap();
    let names: Vec<&str> = snap.components.iter().map(|n| n.as_str()).collect();
    assert_eq!(names, vec!["demo::Health", "demo::Marker", "demo::Velocity"]);
    assert_eq!(snap.reprs.len(), 2);
}

#[test]
fn snapshot_of_missing_entity_is_none() {
    let store = demo_store();
    assert!(EntityComponents::from_entity(&store, 8).is_none());
}

#[test]
fn snapshot_round_trip_is_identical() {
    // capture, apply back unmodified, re-capture: the snapshots agree and
    // the store's values are unchanged
    let mut store = demo_store();
    let snap = EntityComponents::from_entity(&store, 7).unwrap();
    let sel = SelectedEntity { id: 7, name: "player".to_string(), state: snap };
    apply_entity_state(&mut store, &sel);
    let again = EntityComponents::from_entity(&store, 7).unwrap();
    assert_eq!(again, sel.state);
    assert_eq!(
        store.entities[0].components[0].repr,
        Some(Value::Num { kind: NumKind::I64, value: -4 })
    );
}

#[test]
fn apply_writes_edited_value_back() {
    let mut store = demo_store();
    let mut snap = EntityComponents::from_entity(&store, 7).unwrap();
    for entry in snap.reprs.iter_mut() {
        if entry.0.as_str() == "demo::Health" {
            entry.1 = Value::Num { kind: NumKind::U32, value: 55 };
        }
    }
    let sel = SelectedEntity { id: 7, name: "player".to_string(), state: snap };
    apply_entity_state(&mut store, &sel);
    assert_eq!(
        store.entities[0].components[2].repr,
        Some(Value::Num { kind: NumKind::U32, value: 55 })
    );
    assert_eq!(
        store.entities[0].components[0].repr,
        Some(Value::Num { kind: NumKind::I64, value: -4 })
    );
}

#[test]
fn stale_selection_clears_on_refresh() {
    let store = LiveStore { entities: vec![] };
    let sel = SelectedEntity {
        id: 7,
        name: "player".to_string(),
        state: EntityComponents { components: vec![], reprs: vec![] },
    };
    assert!(collect_entity_state(&store, Some(sel)).is_none());
    assert!(collect_entity_state(&store, None).is_none());
}

#[test]
fn refresh_recaptures_from_live_store() {
    let store = demo_store();
    let sel = SelectedEntity {
        id: 7,
        name: "player".to_string(),
        state: EntityComponents { components: vec![], reprs: vec![] },
    };
    let refreshed = collect_entity_state(&store, Some(sel)).unwrap();
    assert_eq!(refreshed.state.components.len(), 3);
}

#[test]
fn parse_int_accepts_exact_decimal() {
    assert_eq!(parse_int("42", -128, 127), Some(42));
    assert_eq!(parse_int("-5", -128, 127), Some(-5));
    assert_eq!(parse_int("+7", -128, 127), Some(7));
    assert_eq!(parse_int("0", 0, 255), Some(0));
    assert_eq!(parse_int("18446744073709551615", 0, 0xffff_ffff_ffff_ffff), Some(u64::MAX as i128));
    assert_eq!(
        parse_int("-9223372036854775808", i64::MIN as i128, i64::MAX as i128),
        Some(i64::MIN as i128)
    );
}

#[test]
fn parse_int_rejects_bad_text() {
    assert_eq!(parse_int("", -128, 127), None);
    assert_eq!(parse_int("abc", -128, 127), None);
    assert_eq!(parse_int("-", -128, 127), None);
    assert_eq!(parse_int("+", -128, 127), None);
    assert_eq!(parse_int("12a", -128, 127), None);
    assert_eq!(parse_int("128", -128, 127), None);
    assert_eq!(parse_int("-129", -128, 127), None);
    assert_eq!(parse_int("-1", 0, 255), None);
}

#[test]
fn fmt_renders_decimal() {
    assert_eq!(fmt_u64(0).as_str(), "0");
    assert_eq!(fmt_u64(907).as_str(), "907");
    assert_eq!(fmt_u64(u64::MAX).as_str(), "18446744073709551615");
    assert_eq!(fmt_int(-45).as_str(), "-45");
    assert_eq!(fmt_int(7).as_str(), "7");
}

#[test]
fn string_order_and_equality() {
    assert!(str_le("alpha", "beta"));
    assert!(!str_le("beta", "alpha"));
    assert!(str_le("abc", "abcd"));
    assert!(str_le("same", "same"));
    assert!(str_eq("same", "same"));
    assert!(!str_eq("same", "sane"));
}

#[test]
fn default_synthesis_builds_whole_tree() {
    let mut reg = TypeRegistry::new();
    reg.register("u32".to_string(), TypeShape::Num { kind: NumKind::U32 });
    reg.register("bool".to_string(), TypeShape::Boolean);
    reg.register(
        "demo::Pair".to_string(),
        TypeShape::Struct {
            fields: vec![
                FieldShape { name: Some("a".to_string()), type_path: "u32".to_string() },
                FieldShape { name: Some("b".to_string()), type_path: "bool".to_string() },
            ],
        },
    );
    reg.register(
        "demo::Grid".to_string(),
        TypeShape::Array { elem: "demo::Pair".to_string(), len: 2 },
    );
    let v = default_of(&reg, "demo::Grid", 16).unwrap();
    let pair = Value::Composite {
        kind: CompositeKind::Struct,
        type_path: "demo::Pair".to_string(),
        fields: vec![
            FieldVal {
                name: Some("a".to_string()),
                value: Value::Num { kind: NumKind::U32, value: 0 },
            },
            FieldVal { name: Some("b".to_string()), value: Value::Bool { value: false } },
        ],
    };
    match v {
        Value::Array { type_path, items } => {
            assert_eq!(type_path.as_str(), "demo::Grid");
            assert_eq!(items.len(), 2);
            assert_eq!(items[0], pair);
            assert_eq!(items[1], pair);
        }
        other => panic!("expected an array, got {other:?}"),
    }
}

#[test]
fn default_synthesis_fails_on_unregistered_leaf() {
    let mut reg = TypeRegistry::new();
    reg.register(
        "demo::Broken".to_string(),
        TypeShape::Struct {
            fields: vec![FieldShape { name: None, type_path: "missing".to_string() }],
        },
    );
    assert!(default_of(&reg, "demo::Broken", 16).is_none());
    assert!(default_of(&reg, "missing", 16).is_none());
}

#[test]
fn default_synthesis_picks_first_enum_variant() {
    let mut reg = TypeRegistry::new();
    reg.register("u32".to_string(), TypeShape::Num { kind: NumKind::U32 });
    reg.register(
        "demo::Opt".to_string(),
        TypeShape::Enum {
            variants: vec![
                VariantShape { name: "Nothing".to_string(), data: VariantData::Unit },
                VariantShape {
                    name: "Something".to_string(),
                    data: VariantData::Tuple(vec![FieldShape {
                        name: None,
                        type_path: "u32".to_string(),
                    }]),
                },
            ],
        },
    );
    let v = default_of(&reg, "demo::Opt", 16).unwrap();
    assert_eq!(
        v,
        Value::Enum {
            type_path: "demo::Opt".to_string(),
            variant: "Nothing".to_string(),
            payload: Payload::Unit,
        }
    );
    let proxy = default_variant_value(
        &reg,
        &VariantShape {
            name: "Something".to_string(),
            data: VariantData::Tuple(vec![FieldShape { name: None, type_path: "u32".to_string() }]),
        },
        16,
    )
    .unwrap();
    assert_eq!(proxy.variant.as_str(), "Something");
    assert_eq!(
        proxy.payload,
        Payload::Tuple(vec![FieldVal {
            name: None,
            value: Value::Num { kind: NumKind::U32, value: 0 },
        }])
    );
}

#[test]
fn cyclic_shape_exhausts_budget_instead_of_recursing() {
    let mut reg = TypeRegistry::new();
    reg.register(
        "demo::Loop".to_string(),
        TypeShape::Struct {
            fields: vec![FieldShape { name: None, type_path: "demo::Loop".to_string() }],
        },
    );
    assert!(default_of(&reg, "demo::Loop", 16).is_none());
}

#[test]
fn popup_display_removes_dismissed() {
    let mut popups = Popups::new();
    popups.add(Popup::new("first".to_string()));
    popups.add(Popup::new("second".to_string()));
    popups.add(Popup::new("third".to_string()));
    // dismiss the first display (the last popup is swapped in and kept),
    // then keep the rest
    popups.display_popups(&vec![true, false, false]);
    let left: Vec<&str> = popups.popups.iter().map(|p| p.message.as_str()).collect();
    assert_eq!(left, vec!["third", "second"]);
}

#[test]
fn popup_display_keeps_all_without_dismissals() {
    let mut popups = Popups::new();
    popups.add(Popup::new("only".to_string()));
    popups.display_popups(&vec![false]);
    assert_eq!(popups.popups.len(), 1);
}

#[test]
fn widget_ids_are_stable_and_distinct() {
    let root = WidgetId::root(3);
    assert!(root.child(0).same(&root.child(0)));
    assert!(!root.child(0).same(&root.child(1)));
    assert!(!root.child(0).same(&root));
    assert!(root.dup().same(&root));
}

#[test]
fn tab_selection_toggles_and_resolves() {
    let mut shell = Spyglass::new();
    shell.tabs.push("Entities".to_string());
    shell.toggle_tab(0);
    assert_eq!(shell.selected, Some(0));
    assert_eq!(shell.selected_name().map(|s| s.as_str()), Some("Entities"));
    shell.toggle_tab(0);
    assert_eq!(shell.selected, None);
    shell.toggle_tab(5);
    assert_eq!(shell.selected, Some(5));
    shell.resolve_selection();
    assert_eq!(shell.selected, None);
}
