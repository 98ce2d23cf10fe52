use spyglass::editors::{
    bool_editor, dispatch_editor, enum_editor, num_editor, render_components, string_editor,
    value_editor, Events, UiEvent,
};
use spyglass::popup::Popups;
use spyglass::shape::{FieldShape, NumKind, TypeRegistry, TypeShape, VariantData, VariantShape};
use spyglass::state::{EditorState, EditorStates};
use spyglass::table::{EditorKind, ReprEditors};
use spyglass::value::{CompositeKind, FieldVal, Payload, Value};
use spyglass::widget::WidgetId;

fn text_event(text: &str, has_focus: bool, lost_focus: bool) -> UiEvent {
    UiEvent::Text { text: text.to_string(), has_focus, lost_focus }
}

fn point_registry() -> TypeRegistry {
    let mut reg = TypeRegistry::new();
    reg.register("u32".to_string(), TypeShape::Num { kind: NumKind::U32 });
    reg.register(
        "demo::Point".to_string(),
        TypeShape::Struct {
            fields: vec![
                FieldShape { name: Some("x".to_string()), type_path: "u32".to_string() },
                FieldShape { name: Some("y".to_string()), type_path: "u32".to_string() },
            ],
        },
    );
    reg
}

fn point_value(x: i128, y: i128) -> Value {
    Value::Composite {
        kind: CompositeKind::Struct,
        type_path: "demo::Point".to_string(),
        fields: vec![
            FieldVal {
                name: Some("x".to_string()),
                value: Value::Num { kind: NumKind::U32, value: x },
            },
            FieldVal {
                name: Some("y".to_string()),
                value: Value::Num { kind: NumKind::U32, value: y },
            },
        ],
    }
}

#[test]
fn num_editor_commits_valid_text() {
    let mut states = EditorStates::new();
    let id = WidgetId::root(0);
    let events = Events { items: vec![(id.dup(), text_event("12", false, true))] };
    let v = Value::Num { kind: NumKind::I32, value: 10 };
    let r = num_editor(NumKind::I32, v, &mut states, &events, &id);
    assert_eq!(r, Value::Num { kind: NumKind::I32, value: 12 });
    assert!(states.get(&id).is_none());
}

#[test]
fn num_editor_keeps_value_on_invalid_text() {
    let mut states = EditorStates::new();
    let id = WidgetId::root(0);
    let events = Events { items: vec![(id.dup(), text_event("abc", false, true))] };
    let v = Value::Num { kind: NumKind::I32, value: 10 };
    let r = num_editor(NumKind::I32, v, &mut states, &events, &id);
    assert_eq!(r, Value::Num { kind: NumKind::I32, value: 10 });
    assert!(states.get(&id).is_none());
}

#[test]
fn num_editor_rejects_out_of_range_text() {
    let mut states = EditorStates::new();
    let id = WidgetId::root(0);
    let events = Events { items: vec![(id.dup(), text_event("128", false, true))] };
    let v = Value::Num { kind: NumKind::I8, value: 3 };
    let r = num_editor(NumKind::I8, v, &mut states, &events, &id);
    assert_eq!(r, Value::Num { kind: NumKind::I8, value: 3 });
}

#[test]
fn num_editor_keeps_buffer_while_focused() {
    let mut states = EditorStates::new();
    let id = WidgetId::root(0);
    let events = Events { items: vec![(id.dup(), text_event("1", true, false))] };
    let v = Value::Num { kind: NumKind::I32, value: 10 };
    let r = num_editor(NumKind::I32, v, &mut states, &events, &id);
    assert_eq!(r, Value::Num { kind: NumKind::I32, value: 10 });
    match states.get(&id) {
        Some(EditorState::TextEdit { temp_value }) => assert_eq!(temp_value.as_str(), "1"),
        other => panic!("expected a text buffer, got {other:?}"),
    }
}

#[test]
fn string_editor_commits_text_verbatim() {
    let mut states = EditorStates::new();
    let id = WidgetId::root(0);
    let events = Events { items: vec![(id.dup(), text_event("hello", false, true))] };
    let v = Value::Text { value: "old".to_string() };
    let r = string_editor(v, &mut states, &events, &id);
    assert_eq!(r, Value::Text { value: "hello".to_string() });
    assert!(states.get(&id).is_none());
}

#[test]
fn bool_editor_applies_toggle() {
    let id = WidgetId::root(0);
    let events = Events { items: vec![(id.dup(), UiEvent::Toggle { value: true })] };
    let r = bool_editor(Value::Bool { value: false }, &events, &id);
    assert_eq!(r, Value::Bool { value: true });
}

#[test]
fn table_lookup_is_total() {
    let table = ReprEditors::default();
    assert_eq!(table.get("bool"), EditorKind::Bool);
    assert_eq!(table.get("u32"), EditorKind::Num(NumKind::U32));
    assert_eq!(table.get("alloc::string::String"), EditorKind::Text);
    assert_eq!(table.get("anything::not::registered"), EditorKind::Reflect);
    assert_eq!(table.get(""), EditorKind::Reflect);
}

#[test]
fn table_register_overwrites() {
    let mut table = ReprEditors::default();
    table.register("bool".to_string(), EditorKind::Reflect);
    assert_eq!(table.get("bool"), EditorKind::Reflect);
}

#[test]
fn point_scenario_edit_then_invalid_edit() {
    // a struct Point { x: u32, y: u32 } with live value { x: 1, y: 2 }
    let table = ReprEditors::default();
    let reg = point_registry();
    let mut states = EditorStates::new();
    let mut popups = Popups::new();
    let root = WidgetId::root(0);
    let x_id = root.child(0);

    // editing x's buffer to "5" then defocusing commits 5
    let events = Events { items: vec![(x_id.dup(), text_event("5", false, true))] };
    let v = point_value(1, 2);
    let v = dispatch_editor(&table, &reg, v, &mut states, &events, &mut popups, &root, 8);
    assert_eq!(v, point_value(5, 2));

    // editing x's buffer to "abc" then defocusing keeps the prior value 5
    let events = Events { items: vec![(x_id.dup(), text_event("abc", false, true))] };
    let v = dispatch_editor(&table, &reg, v, &mut states, &events, &mut popups, &root, 8);
    assert_eq!(v, point_value(5, 2));
}

#[test]
fn freshness_clears_children_state() {
    // a fresh composite clears its children's persisted state even when
    // neither child is touched this frame
    let table = ReprEditors::default();
    let reg = point_registry();
    let mut states = EditorStates::new();
    let mut popups = Popups::new();
    let root = WidgetId::root(0);
    states.insert(
        root.child(0),
        EditorState::TextEdit { temp_value: "stale x".to_string() },
    );
    states.insert(
        root.child(1),
        EditorState::TextEdit { temp_value: "stale y".to_string() },
    );
    let events = Events { items: vec![] };
    let v = point_value(1, 2);
    let v = dispatch_editor(&table, &reg, v, &mut states, &events, &mut popups, &root, 8);
    assert_eq!(v, point_value(1, 2));
    assert!(states.get(&root.child(0)).is_none());
    assert!(states.get(&root.child(1)).is_none());
}

fn shape_registry() -> TypeRegistry {
    // enum demo::Shape { Circle(u32), Square { side: u32 }, Dot }
    let mut reg = TypeRegistry::new();
    reg.register("u32".to_string(), TypeShape::Num { kind: NumKind::U32 });
    reg.register(
        "demo::Shape".to_string(),
        TypeShape::Enum {
            variants: vec![
                VariantShape {
                    name: "Circle".to_string(),
                    data: VariantData::Tuple(vec![FieldShape {
                        name: None,
                        type_path: "u32".to_string(),
                    }]),
                },
                VariantShape {
                    name: "Square".to_string(),
                    data: VariantData::Struct(vec![FieldShape {
                        name: Some("side".to_string()),
                        type_path: "u32".to_string(),
                    }]),
                },
                VariantShape { name: "Dot".to_string(), data: VariantData::Unit },
            ],
        },
    );
    reg
}

fn circle(radius: i128) -> Value {
    Value::Enum {
        type_path: "demo::Shape".to_string(),
        variant: "Circle".to_string(),
        payload: Payload::Tuple(vec![FieldVal {
            name: None,
            value: Value::Num { kind: NumKind::U32, value: radius },
        }]),
    }
}

#[test]
fn unit_variant_applies_immediately() {
    let table = ReprEditors::default();
    let reg = shape_registry();
    let mut states = EditorStates::new();
    let mut popups = Popups::new();
    let root = WidgetId::root(0);
    let events = Events { items: vec![(root.dup(), UiEvent::PickVariant { index: 2 })] };
    let v = enum_editor(&table, &reg, circle(3), &mut states, &events, &mut popups, &root, 8);
    assert_eq!(
        v,
        Value::Enum {
            type_path: "demo::Shape".to_string(),
            variant: "Dot".to_string(),
            payload: Payload::Unit,
        }
    );
    assert_eq!(popups.popups.len(), 0);
}

#[test]
fn shape_scenario_pick_square_edit_and_apply() {
    // enum Shape currently Circle(3); the user selects Square { side },
    // the constructor opens showing side = 0, the user edits it to "4"
    // and confirms; the value becomes Square { side: 4 }
    let table = ReprEditors::default();
    let reg = shape_registry();
    let mut states = EditorStates::new();
    let mut popups = Popups::new();
    let root = WidgetId::root(0);
    let ctor = root.child(1);
    let side_id = ctor.child(0).child(0);

    // frame one: pick the Square variant; a constructor session opens
    // holding the fully defaulted instance
    let events = Events { items: vec![(root.dup(), UiEvent::PickVariant { index: 1 })] };
    let v = enum_editor(&table, &reg, circle(3), &mut states, &events, &mut popups, &root, 8);
    assert_eq!(v, circle(3));
    let sessions = states.ctors(&root);
    let first = &sessions.ctors[0];
    match &first.value {
        Some(proxy) => {
            assert_eq!(proxy.variant.as_str(), "Square");
            assert_eq!(
                proxy.payload,
                Payload::Struct(vec![FieldVal {
                    name: Some("side".to_string()),
                    value: Value::Num { kind: NumKind::U32, value: 0 },
                }])
            );
        }
        None => panic!("expected a pending constructor"),
    }
    states.put_ctors(root.dup(), sessions);

    // frame two: type "4" into the constructor's field and defocus
    let events = Events { items: vec![(side_id.dup(), text_event("4", false, true))] };
    let v = enum_editor(&table, &reg, v, &mut states, &events, &mut popups, &root, 8);
    assert_eq!(v, circle(3));

    // frame three: confirm; the constructed value is applied
    let events = Events { items: vec![(ctor.dup(), UiEvent::Apply)] };
    let v = enum_editor(&table, &reg, v, &mut states, &events, &mut popups, &root, 8);
    assert_eq!(
        v,
        Value::Enum {
            type_path: "demo::Shape".to_string(),
            variant: "Square".to_string(),
            payload: Payload::Struct(vec![FieldVal {
                name: Some("side".to_string()),
                value: Value::Num { kind: NumKind::U32, value: 4 },
            }]),
        }
    );
    assert_eq!(popups.popups.len(), 0);
}

#[test]
fn synthesis_failure_queues_one_popup() {
    // a variant whose field type is unregistered cannot be defaulted: the
    // selection stays and exactly one notification is queued
    let table = ReprEditors::default();
    let mut reg = shape_registry();
    reg.register(
        "demo::Shape".to_string(),
        TypeShape::Enum {
            variants: vec![
                VariantShape { name: "Circle".to_string(), data: VariantData::Unit },
                VariantShape {
                    name: "Weird".to_string(),
                    data: VariantData::Tuple(vec![FieldShape {
                        name: None,
                        type_path: "not::registered".to_string(),
                    }]),
                },
            ],
        },
    );
    let mut states = EditorStates::new();
    let mut popups = Popups::new();
    let root = WidgetId::root(0);
    let v = Value::Enum {
        type_path: "demo::Shape".to_string(),
        variant: "Circle".to_string(),
        payload: Payload::Unit,
    };
    let events = Events { items: vec![(root.dup(), UiEvent::PickVariant { index: 1 })] };
    let r = enum_editor(&table, &reg, v, &mut states, &events, &mut popups, &root, 8);
    assert_eq!(
        r,
        Value::Enum {
            type_path: "demo::Shape".to_string(),
            variant: "Circle".to_string(),
            payload: Payload::Unit,
        }
    );
    assert_eq!(popups.popups.len(), 1);
}

#[test]
fn enum_editor_without_shape_changes_nothing() {
    let table = ReprEditors::default();
    let reg = TypeRegistry::new();
    let mut states = EditorStates::new();
    let mut popups = Popups::new();
    let root = WidgetId::root(0);
    let events = Events { items: vec![(root.dup(), UiEvent::PickVariant { index: 0 })] };
    let v = enum_editor(&table, &reg, circle(3), &mut states, &events, &mut popups, &root, 8);
    assert_eq!(v, circle(3));
    assert_eq!(popups.popups.len(), 0);
}

#[test]
fn list_editor_commits_element_edit() {
    let table = ReprEditors::default();
    let mut reg = TypeRegistry::new();
    reg.register("u32".to_string(), TypeShape::Num { kind: NumKind::U32 });
    reg.register("demo::Scores".to_string(), TypeShape::List { elem: "u32".to_string() });
    let mut states = EditorStates::new();
    let mut popups = Popups::new();
    let root = WidgetId::root(0);
    let second = root.child(1);
    let events = Events { items: vec![(second.dup(), text_event("9", false, true))] };
    let v = Value::List {
        type_path: "demo::Scores".to_string(),
        items: vec![
            Value::Num { kind: NumKind::U32, value: 1 },
            Value::Num { kind: NumKind::U32, value: 2 },
            Value::Num { kind: NumKind::U32, value: 3 },
        ],
    };
    let v = dispatch_editor(&table, &reg, v, &mut states, &events, &mut popups, &root, 8);
    assert_eq!(
        v,
        Value::List {
            type_path: "demo::Scores".to_string(),
            items: vec![
                Value::Num { kind: NumKind::U32, value: 1 },
                Value::Num { kind: NumKind::U32, value: 9 },
                Value::Num { kind: NumKind::U32, value: 3 },
            ],
        }
    );
}

#[test]
fn map_editor_commits_value_edit_and_keeps_keys() {
    let table = ReprEditors::default();
    let mut reg = TypeRegistry::new();
    reg.register("u32".to_string(), TypeShape::Num { kind: NumKind::U32 });
    reg.register(
        "demo::Ages".to_string(),
        TypeShape::Mapping { key: "alloc::string::String".to_string(), value: "u32".to_string() },
    );
    let mut states = EditorStates::new();
    let mut popups = Popups::new();
    let root = WidgetId::root(0);
    // the value of entry 0 lives at child discriminant (entry count + 0)
    let entry0_value = root.child(2);
    let events = Events { items: vec![(entry0_value.dup(), text_event("31", false, true))] };
    let key = |s: &str| Value::Text { value: s.to_string() };
    let v = Value::Mapping {
        type_path: "demo::Ages".to_string(),
        entries: vec![
            (key("ada"), Value::Num { kind: NumKind::U32, value: 30 }),
            (key("bob"), Value::Num { kind: NumKind::U32, value: 40 }),
        ],
    };
    let v = dispatch_editor(&table, &reg, v, &mut states, &events, &mut popups, &root, 8);
    assert_eq!(
        v,
        Value::Mapping {
            type_path: "demo::Ages".to_string(),
            entries: vec![
                (key("ada"), Value::Num { kind: NumKind::U32, value: 31 }),
                (key("bob"), Value::Num { kind: NumKind::U32, value: 40 }),
            ],
        }
    );
}

#[test]
fn render_components_edits_by_slot_and_keeps_malformed_values() {
    let table = ReprEditors::default();
    let reg = point_registry();
    let mut states = EditorStates::new();
    let mut popups = Popups::new();
    // slot 1's x field lives under rendering root 1
    let x_of_slot1 = WidgetId::root(1).child(0);
    let events = Events { items: vec![(x_of_slot1.dup(), text_event("8", false, true))] };
    let out_of_range = Value::Num { kind: NumKind::U32, value: -1 };
    let reprs = vec![
        ("demo::Broken".to_string(), out_of_range),
        ("demo::Point".to_string(), point_value(1, 2)),
    ];
    let reprs = render_components(&table, &reg, reprs, &mut states, &events, &mut popups, 8);
    // the malformed value is kept unchanged, the well-formed one is edited
    assert_eq!(reprs[0].1, Value::Num { kind: NumKind::U32, value: -1 });
    assert_eq!(reprs[1].1, point_value(8, 2));
}

#[test]
fn well_formed_checks_numeric_ranges_in_depth() {
    assert!(point_value(1, 2).well_formed());
    let bad = Value::Composite {
        kind: CompositeKind::Struct,
        type_path: "demo::Point".to_string(),
        fields: vec![FieldVal {
            name: Some("x".to_string()),
            value: Value::Num { kind: NumKind::U8, value: 300 },
        }],
    };
    assert!(!bad.well_formed());
}

#[test]
fn value_editor_renders_values_read_only() {
    assert_eq!(value_editor(&Value::Bool { value: true }).as_str(), "true");
    assert_eq!(
        value_editor(&Value::Num { kind: NumKind::I32, value: -7 }).as_str(),
        "-7"
    );
    assert_eq!(
        value_editor(&Value::Text { value: "hi".to_string() }).as_str(),
        "\"hi\""
    );
    assert_eq!(
        value_editor(&point_value(1, 2)).as_str(),
        "demo::Point(x: 1, y: 2)"
    );
    let shape = Value::Enum {
        type_path: "demo::Shape".to_string(),
        variant: "Dot".to_string(),
        payload: Payload::Unit,
    };
    assert_eq!(value_editor(&shape).as_str(), "demo::Shape::Dot");
    let list = Value::List {
        type_path: "demo::Scores".to_string(),
        items: vec![
            Value::Num { kind: NumKind::U32, value: 1 },
            Value::Num { kind: NumKind::U32, value: 2 },
        ],
    };
    assert_eq!(value_editor(&list).as_str(), "[1, 2]");
}
