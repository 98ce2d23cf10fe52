//! The reflective editor dispatch engine. Each frame the shell reports, per
//! widget identity, what the user did there (edited text, toggled a box,
//! picked a variant, confirmed a constructor); the engine walks the cloned
//! value by shape, routes each node to its editor through the editor table,
//! keeps per-widget state across frames with explicit freshness rules, and
//! mutates the clone accordingly.

use vstd::prelude::*;
use vstd::string::StringExecFns;
use crate::popup::Popup;
use crate::popup::Popups;
use crate::shape::NumKind;
use crate::shape::TypeRegistry;
use crate::shape::TypeShape;
use crate::shape::VariantData;
use crate::shape::VariantShape;
use crate::synth::default_variant_value;
use crate::synth::spec_default_variant;
use crate::state::Ctor;
use crate::state::CtorV;
use crate::state::EditorState;
use crate::state::EditorStateV;
use crate::state::EditorStates;
use crate::state::ctor_wf;
use crate::state::ctors_list_wf;
use crate::state::VariantProxy;
use crate::table::EditorKind;
use crate::table::ReprEditors;
use crate::text::spec_parse_int;
use crate::text::fmt_int;
use crate::text::int_rep;
use crate::text::parse_int;
use crate::value::FieldV;
use crate::value::FieldVal;
use crate::value::Payload;
use crate::value::PayloadV;
use crate::value::ValV;
use crate::value::Value;
use crate::value::field_view;
use crate::value::fields_view;
use crate::value::fields_wf;
use crate::value::lemma_fields_view;
use crate::value::lemma_fields_wf_index;
use crate::value::lemma_values_view;
use crate::value::lemma_values_wf_index;
use crate::value::lemma_entries_view;
use crate::value::lemma_entries_wf_index;
use crate::value::values_view;
use crate::value::entries_view;
use crate::widget::WidgetId;
use crate::widget::in_subtree;
use crate::widget::lemma_sibling_subtrees_disjoint;
use crate::widget::lemma_subtree_child;
use crate::widget::lemma_subtree_refl;
use crate::widget::wassoc_find;
use crate::widget::wassoc_get;

verus! {

/// What the user did at one widget during the frame.
#[derive(Debug, PartialEq, Eq)]
pub enum UiEvent {
    /// A text field's buffer after editing, and its focus transitions.
    Text { text: String, has_focus: bool, lost_focus: bool },
    /// A checkbox was set to this value.
    Toggle { value: bool },
    /// The menu entry of the variant with this declared index was clicked.
    PickVariant { index: usize },
    /// The apply button of a constructor window was clicked.
    Apply,
}

/// The frame's input: at most one event per widget identity.
pub struct Events {
    pub items: Vec<(WidgetId, UiEvent)>,
}

impl Events {
    /// The event reported at a widget, if any.
    pub open spec fn ev(self, k: Seq<u64>) -> Option<UiEvent> {
        wassoc_get(self.items@, k)
    }

    /// Look up the event reported at a widget.
    pub fn get(&self, id: &WidgetId) -> (r: Option<&UiEvent>)
        ensures
            match r {
                Some(e) => self.ev(id@) == Some(*e),
                None => self.ev(id@) is None,
            },
    {
        wassoc_find(&self.items, id)
    }
}

/// No event was reported anywhere in the subtree rooted at `base`.
pub open spec fn quiet(events: Events, base: Seq<u64>) -> bool {
    forall|k: Seq<u64>| in_subtree(k, base) ==> #[trigger] events.ev(k) is None
}

/// State and sessions outside the subtree rooted at `base` are untouched.
pub open spec fn same_outside(a: EditorStates, b: EditorStates, base: Seq<u64>) -> bool {
    &&& forall|k: Seq<u64>| !in_subtree(k, base) ==> #[trigger] b.st(k) == a.st(k)
    &&& forall|k: Seq<u64>| !in_subtree(k, base) ==> #[trigger] b.ct(k) == a.ct(k)
}

/// The widget holds no text buffer: no state, or only the composite marker.
pub open spec fn calm(st: Option<EditorState>) -> bool {
    match st {
        None => true,
        Some(s) => s@ is Composite,
    }
}

/// The buffer that the text-editing protocol leaves behind: typing keeps
/// the buffer while the field stays focused; losing focus removes it,
/// whatever the parse outcome.
pub open spec fn spec_leaf_state_after(ev: Option<UiEvent>) -> Option<EditorStateV> {
    match ev {
        Some(UiEvent::Text { text, has_focus, lost_focus }) => if !lost_focus && has_focus {
            Some(EditorStateV::TextEdit { temp_value: text@ })
        } else {
            None
        },
        _ => None,
    }
}

/// What committing `text` over a previous numeric value yields: the parsed
/// value when the text denotes one in the kind's range, the previous value
/// otherwise.
pub open spec fn spec_commit_num(kind: NumKind, text: Seq<char>, prev: int) -> int {
    match spec_parse_int(text, kind.spec_min(), kind.spec_max()) {
        Some(v) => v,
        None => prev,
    }
}

/// The numeric value after the frame: committed on focus loss, otherwise
/// kept.
pub open spec fn spec_num_after(kind: NumKind, ev: Option<UiEvent>, prev: int) -> int {
    match ev {
        Some(UiEvent::Text { text, lost_focus, .. }) => if lost_focus {
            spec_commit_num(kind, text@, prev)
        } else {
            prev
        },
        _ => prev,
    }
}

/// The text value after the frame: committed verbatim on focus loss,
/// otherwise kept.
pub open spec fn spec_text_after(ev: Option<UiEvent>, prev: Seq<char>) -> Seq<char> {
    match ev {
        Some(UiEvent::Text { text, lost_focus, .. }) => if lost_focus {
            text@
        } else {
            prev
        },
        _ => prev,
    }
}

/// The boolean value after the frame.
pub open spec fn spec_bool_after(ev: Option<UiEvent>, prev: bool) -> bool {
    match ev {
        Some(UiEvent::Toggle { value }) => value,
        _ => prev,
    }
}

/// The read-only text rendering of a value, as the fallback editor shows
/// it: literals for leaves, the type name around parenthesized fields for
/// composites, brackets for lists and arrays, braces for maps, and the
/// variant path with its payload for enums.
pub open spec fn spec_render(v: ValV) -> Seq<char>
    decreases v,
{
    match v {
        ValV::Bool { value } => if value {
            "true"@
        } else {
            "false"@
        },
        ValV::Num { value, .. } => int_rep(value),
        ValV::Text { value } => "\""@ + value + "\""@,
        ValV::Composite { type_path, fields, .. } => type_path + "("@ + spec_render_fields(fields)
            + ")"@,
        ValV::List { items, .. } => "["@ + spec_render_items(items) + "]"@,
        ValV::Array { items, .. } => "["@ + spec_render_items(items) + "]"@,
        ValV::Mapping { entries, .. } => "{"@ + spec_render_entries(entries) + "}"@,
        ValV::Enum { type_path, variant, payload } => type_path + "::"@ + variant
            + spec_render_payload(payload),
        ValV::Opaque { type_path } => type_path,
    }
}

/// The rendering of one field: its name when it has one, then the value.
pub open spec fn spec_render_field(f: FieldV) -> Seq<char>
    decreases f,
{
    match f.name {
        Some(n) => n + ": "@ + spec_render(f.value),
        None => spec_render(f.value),
    }
}

/// The comma-separated rendering of a field list.
pub open spec fn spec_render_fields(s: Seq<FieldV>) -> Seq<char>
    decreases s,
{
    if s.len() == 0 {
        Seq::empty()
    } else if s.len() == 1 {
        spec_render_field(s[0])
    } else {
        spec_render_field(s[0]) + ", "@ + spec_render_fields(s.drop_first())
    }
}

/// The comma-separated rendering of an item list.
pub open spec fn spec_render_items(s: Seq<ValV>) -> Seq<char>
    decreases s,
{
    if s.len() == 0 {
        Seq::empty()
    } else if s.len() == 1 {
        spec_render(s[0])
    } else {
        spec_render(s[0]) + ", "@ + spec_render_items(s.drop_first())
    }
}

/// The comma-separated rendering of a map's entries, keys first.
pub open spec fn spec_render_entries(s: Seq<(ValV, ValV)>) -> Seq<char>
    decreases s,
{
    if s.len() == 0 {
        Seq::empty()
    } else if s.len() == 1 {
        spec_render(s[0].0) + ": "@ + spec_render(s[0].1)
    } else {
        spec_render(s[0].0) + ": "@ + spec_render(s[0].1) + ", "@ + spec_render_entries(
            s.drop_first(),
        )
    }
}

/// The rendering of an enum payload: nothing for a unit variant, the
/// parenthesized fields otherwise.
pub open spec fn spec_render_payload(p: PayloadV) -> Seq<char>
    decreases p,
{
    match p {
        PayloadV::Unit => Seq::empty(),
        PayloadV::Tuple(fs) => "("@ + spec_render_fields(fs) + ")"@,
        PayloadV::Struct(fs) => "("@ + spec_render_fields(fs) + ")"@,
    }
}

/// Appending a field extends the comma-separated rendering at the end.
pub proof fn lemma_render_fields_snoc(s: Seq<FieldV>, f: FieldV)
    ensures
        spec_render_fields(s.push(f)) == if s.len() == 0 {
            spec_render_field(f)
        } else {
            spec_render_fields(s) + ", "@ + spec_render_field(f)
        },
    decreases s,
{
    let t = s.push(f);
    if s.len() == 0 {
        assert(t[0] == f);
    } else {
        assert(t[0] == s[0]);
        assert(t.drop_first() =~= s.drop_first().push(f));
        lemma_render_fields_snoc(s.drop_first(), f);
        if s.len() == 1 {
            assert(s.drop_first().len() == 0);
        } else {
            assert(spec_render_fields(s) + ", "@ + spec_render_field(f) =~= spec_render_field(s[0])
                + ", "@ + (spec_render_fields(s.drop_first()) + ", "@ + spec_render_field(f)));
        }
    }
}

/// Appending an item extends the comma-separated rendering at the end.
pub proof fn lemma_render_items_snoc(s: Seq<ValV>, v: ValV)
    ensures
        spec_render_items(s.push(v)) == if s.len() == 0 {
            spec_render(v)
        } else {
            spec_render_items(s) + ", "@ + spec_render(v)
        },
    decreases s,
{
    let t = s.push(v);
    if s.len() == 0 {
        assert(t[0] == v);
    } else {
        assert(t[0] == s[0]);
        assert(t.drop_first() =~= s.drop_first().push(v));
        lemma_render_items_snoc(s.drop_first(), v);
        if s.len() == 1 {
            assert(s.drop_first().len() == 0);
        } else {
            assert(spec_render_items(s) + ", "@ + spec_render(v) =~= spec_render(s[0]) + ", "@ + (
            spec_render_items(s.drop_first()) + ", "@ + spec_render(v)));
        }
    }
}

/// Appending an entry extends the comma-separated rendering at the end.
pub proof fn lemma_render_entries_snoc(s: Seq<(ValV, ValV)>, e: (ValV, ValV))
    ensures
        spec_render_entries(s.push(e)) == if s.len() == 0 {
            spec_render(e.0) + ": "@ + spec_render(e.1)
        } else {
            spec_render_entries(s) + ", "@ + spec_render(e.0) + ": "@ + spec_render(e.1)
        },
    decreases s,
{
    let t = s.push(e);
    if s.len() == 0 {
        assert(t[0] == e);
    } else {
        assert(t[0] == s[0]);
        assert(t.drop_first() =~= s.drop_first().push(e));
        lemma_render_entries_snoc(s.drop_first(), e);
        if s.len() == 1 {
            assert(s.drop_first().len() == 0);
            assert(spec_render_entries(t) =~= spec_render_entries(s) + ", "@ + spec_render(e.0)
                + ": "@ + spec_render(e.1));
        } else {
            assert(spec_render_entries(t) =~= spec_render_entries(s) + ", "@ + spec_render(e.0)
                + ": "@ + spec_render(e.1));
        }
    }
}

/// The bool editor: a checkbox. Keeps no per-widget state./// The bool editor: a checkbox. Keeps no per-widget state.
pub fn bool_editor(v: Value, events: &Events, id: &WidgetId) -> (r: Value)
    ensures
        v@ matches ValV::Bool { value: prev } ==> (r@ == (ValV::Bool {
            value: spec_bool_after(events.ev(id@), prev),
        })),
        !(v@ is Bool) ==> r@ == v@,
{
    match v {
        Value::Bool { value } => {
            match events.get(id) {
                Some(UiEvent::Toggle { value: nv }) => Value::Bool { value: *nv },
                _ => Value::Bool { value },
            }
        },
        other => other,
    }
}

/// A read-only fallback for value types with no registered editor: shows
/// the value's text rendering and changes nothing.
pub fn value_editor(v: &Value) -> (r: String)
    requires
        v@.wf(),
    ensures
        r@ == spec_render(v@),
    decreases *v,
{
    match v {
        Value::Bool { value } => {
            if *value {
                String::from_str("true")
            } else {
                String::from_str("false")
            }
        },
        Value::Num { value, .. } => fmt_int(*value),
        Value::Text { value } => {
            let mut out = String::from_str("\"");
            out.append(value.as_str());
            out.append("\"");
            proof {
                assert(out@ =~= "\""@ + value@ + "\""@);
            }
            out
        },
        Value::Composite { type_path, fields, .. } => {
            let mut out = type_path.clone();
            out.append("(");
            let inner = render_fields(fields);
            out.append(inner.as_str());
            out.append(")");
            proof {
                assert(out@ =~= type_path@ + "("@ + inner@ + ")"@);
            }
            out
        },
        Value::List { items, .. } => {
            let mut out = String::from_str("[");
            let inner = render_items(items);
            out.append(inner.as_str());
            out.append("]");
            proof {
                assert(out@ =~= "["@ + inner@ + "]"@);
            }
            out
        },
        Value::Array { items, .. } => {
            let mut out = String::from_str("[");
            let inner = render_items(items);
            out.append(inner.as_str());
            out.append("]");
            proof {
                assert(out@ =~= "["@ + inner@ + "]"@);
            }
            out
        },
        Value::Mapping { entries, .. } => {
            let mut out = String::from_str("{");
            let inner = render_entries(entries);
            out.append(inner.as_str());
            out.append("}");
            proof {
                assert(out@ =~= "{"@ + inner@ + "}"@);
            }
            out
        },
        Value::Enum { type_path, variant, payload } => {
            let mut out = type_path.clone();
            out.append("::");
            out.append(variant.as_str());
            match payload {
                Payload::Unit => {
                    proof {
                        assert(out@ =~= type_path@ + "::"@ + variant@ + spec_render_payload(
                            payload@,
                        ));
                    }
                },
                Payload::Tuple(fields) => {
                    out.append("(");
                    let inner = render_fields(fields);
                    out.append(inner.as_str());
                    out.append(")");
                    proof {
                        assert(out@ =~= type_path@ + "::"@ + variant@ + ("("@ + inner@ + ")"@));
                    }
                },
                Payload::Struct(fields) => {
                    out.append("(");
                    let inner = render_fields(fields);
                    out.append(inner.as_str());
                    out.append(")");
                    proof {
                        assert(out@ =~= type_path@ + "::"@ + variant@ + ("("@ + inner@ + ")"@));
                    }
                },
            }
            out
        },
        Value::Opaque { type_path } => type_path.clone(),
    }
}

/// The comma-separated rendering of a composite's fields.
fn render_fields(fields: &Vec<FieldVal>) -> (r: String)
    requires
        fields_wf(fields_view(fields@)),
    ensures
        r@ == spec_render_fields(fields_view(fields@)),
    decreases *fields,
{
    let ghost fv = fields_view(fields@);
    proof {
        lemma_fields_view(fields@);
        lemma_fields_wf_index(fv);
    }
    let mut out = String::new();
    let mut i: usize = 0;
    while i < fields.len()
        invariant
            i <= fields@.len(),
            fv == fields_view(fields@),
            fv.len() == fields@.len(),
            forall|j: int| 0 <= j < fields@.len() ==> #[trigger] fv[j] == field_view(fields@[j]),
            forall|j: int| 0 <= j < fv.len() ==> (#[trigger] fv[j]).value.wf(),
            out@ == spec_render_fields(fv.take(i as int)),
        decreases fields@.len() - i,
    {
        if i > 0 {
            out.append(", ");
        }
        match &fields[i].name {
            Some(n) => {
                out.append(n.as_str());
                out.append(": ");
            },
            None => {},
        }
        let rendered = value_editor(&fields[i].value);
        out.append(rendered.as_str());
        proof {
            lemma_render_fields_snoc(fv.take(i as int), fv[i as int]);
            assert(fv.take(i + 1 as int) =~= fv.take(i as int).push(fv[i as int]));
            assert(rendered@ == spec_render(fv[i as int].value));
            if i > 0 {
                assert(out@ =~= spec_render_fields(fv.take(i as int)) + ", "@ + spec_render_field(
                    fv[i as int],
                ));
            } else {
                assert(out@ =~= spec_render_field(fv[i as int]));
            }
        }
        i += 1;
    }
    proof {
        assert(fv.take(i as int) =~= fv);
    }
    out
}

/// The comma-separated rendering of a list's items.
fn render_items(items: &Vec<Value>) -> (r: String)
    requires
        crate::value::values_wf(values_view(items@)),
    ensures
        r@ == spec_render_items(values_view(items@)),
    decreases *items,
{
    let ghost iv = values_view(items@);
    proof {
        lemma_values_view(items@);
        lemma_values_wf_index(iv);
    }
    let mut out = String::new();
    let mut i: usize = 0;
    while i < items.len()
        invariant
            i <= items@.len(),
            iv == values_view(items@),
            iv.len() == items@.len(),
            forall|j: int| 0 <= j < items@.len() ==> #[trigger] iv[j] == items@[j]@,
            forall|j: int| 0 <= j < iv.len() ==> (#[trigger] iv[j]).wf(),
            out@ == spec_render_items(iv.take(i as int)),
        decreases items@.len() - i,
    {
        if i > 0 {
            out.append(", ");
        }
        let rendered = value_editor(&items[i]);
        out.append(rendered.as_str());
        proof {
            lemma_render_items_snoc(iv.take(i as int), iv[i as int]);
            assert(iv.take(i + 1 as int) =~= iv.take(i as int).push(iv[i as int]));
            if i > 0 {
                assert(out@ =~= spec_render_items(iv.take(i as int)) + ", "@ + spec_render(
                    iv[i as int],
                ));
            } else {
                assert(out@ =~= spec_render(iv[i as int]));
            }
        }
        i += 1;
    }
    proof {
        assert(iv.take(i as int) =~= iv);
    }
    out
}

/// The comma-separated rendering of a map's entries.
fn render_entries(entries: &Vec<(Value, Value)>) -> (r: String)
    requires
        crate::value::entries_wf(entries_view(entries@)),
    ensures
        r@ == spec_render_entries(entries_view(entries@)),
    decreases *entries,
{
    let ghost ev = entries_view(entries@);
    proof {
        lemma_entries_view(entries@);
        lemma_entries_wf_index(ev);
    }
    let mut out = String::new();
    let mut i: usize = 0;
    while i < entries.len()
        invariant
            i <= entries@.len(),
            ev == entries_view(entries@),
            ev.len() == entries@.len(),
            forall|j: int|
                0 <= j < entries@.len() ==> #[trigger] ev[j] == (entries@[j].0@, entries@[j].1@),
            forall|j: int| 0 <= j < ev.len() ==> (#[trigger] ev[j]).0.wf() && ev[j].1.wf(),
            out@ == spec_render_entries(ev.take(i as int)),
        decreases entries@.len() - i,
    {
        if i > 0 {
            out.append(", ");
        }
        proof {
            assert(ev[i as int] == (entries@[i as int].0@, entries@[i as int].1@));
            assert(ev[i as int].0.wf() && ev[i as int].1.wf());
        }
        let key = value_editor(&entries[i].0);
        out.append(key.as_str());
        out.append(": ");
        let val = value_editor(&entries[i].1);
        out.append(val.as_str());
        proof {
            lemma_render_entries_snoc(ev.take(i as int), ev[i as int]);
            assert(ev.take(i + 1 as int) =~= ev.take(i as int).push(ev[i as int]));
            if i > 0 {
                assert(out@ =~= spec_render_entries(ev.take(i as int)) + ", "@ + spec_render(
                    ev[i as int].0,
                ) + ": "@ + spec_render(ev[i as int].1));
            } else {
                assert(out@ =~= spec_render(ev[i as int].0) + ": "@ + spec_render(ev[i as int].1));
            }
        }
        i += 1;
    }
    proof {
        assert(ev.take(i as int) =~= ev);
    }
    out
}

/// The generic number editor, one for every integer width. While the field
/// is focused, the typed text lives in a per-widget buffer; on focus loss
/// the buffer is parsed — on parse failure the previous committed value is
/// retained unchanged — and the buffer entry is removed either way.
pub fn num_editor(
    kind: NumKind,
    v: Value,
    states: &mut EditorStates,
    events: &Events,
    id: &WidgetId,
) -> (r: Value)
    requires
        old(states).wf(),
        v@.wf(),
    ensures
        final(states).wf(),
        r@.wf(),
        same_outside(*old(states), *final(states), id@),
        final(states).ct(id@) == old(states).ct(id@),
        v@ matches ValV::Num { kind: k2, value: prev } ==> (k2 == kind ==> r@ == (ValV::Num {
            kind,
            value: spec_num_after(kind, events.ev(id@), prev),
        }) && (match spec_leaf_state_after(events.ev(id@)) {
            Some(s) => final(states).stv(id@) == Some(s),
            None => final(states).st(id@) is None,
        })),
        !(v@ matches ValV::Num { kind: k2, .. } && k2 == kind) ==> r@ == v@ && final(states).st(
            id@,
        ) == old(states).st(id@),
{
    proof {
        lemma_subtree_refl(id@);
    }
    match v {
        Value::Num { kind: k2, value } => {
            if k2 == kind {
                let r = match events.get(id) {
                    Some(UiEvent::Text { text, has_focus, lost_focus }) => {
                        if *lost_focus {
                            let committed = match parse_int(
                                text.as_str(),
                                kind.min_val(),
                                kind.max_val(),
                            ) {
                                Some(p) => p,
                                None => value,
                            };
                            states.remove(id);
                            Value::Num { kind, value: committed }
                        } else if *has_focus {
                            states.insert(
                                id.dup(),
                                EditorState::TextEdit { temp_value: text.clone() },
                            );
                            Value::Num { kind, value }
                        } else {
                            states.remove(id);
                            Value::Num { kind, value }
                        }
                    },
                    _ => {
                        states.remove(id);
                        Value::Num { kind, value }
                    },
                };
                r
            } else {
                Value::Num { kind: k2, value }
            }
        },
        other => other,
    }
}

/// The string editor: same buffer protocol as the number editor, but the
/// committed text is applied verbatim.
pub fn string_editor(v: Value, states: &mut EditorStates, events: &Events, id: &WidgetId) -> (r:
    Value)
    requires
        old(states).wf(),
        v@.wf(),
    ensures
        final(states).wf(),
        r@.wf(),
        same_outside(*old(states), *final(states), id@),
        final(states).ct(id@) == old(states).ct(id@),
        v@ matches ValV::Text { value: prev } ==> (r@ == (ValV::Text {
            value: spec_text_after(events.ev(id@), prev),
        }) && (match spec_leaf_state_after(events.ev(id@)) {
            Some(s) => final(states).stv(id@) == Some(s),
            None => final(states).st(id@) is None,
        })),
        !(v@ is Text) ==> r@ == v@ && final(states).st(id@) == old(states).st(id@),
{
    proof {
        lemma_subtree_refl(id@);
    }
    match v {
        Value::Text { value } => {
            match events.get(id) {
                Some(UiEvent::Text { text, has_focus, lost_focus }) => {
                    if *lost_focus {
                        states.remove(id);
                        Value::Text { value: text.clone() }
                    } else if *has_focus {
                        states.insert(
                            id.dup(),
                            EditorState::TextEdit { temp_value: text.clone() },
                        );
                        Value::Text { value }
                    } else {
                        states.remove(id);
                        Value::Text { value }
                    }
                },
                _ => {
                    states.remove(id);
                    Value::Text { value }
                },
            }
        },
        other => other,
    }
}

/// The frame bundle every recursive editor guarantees: state outside the
/// widget's subtree untouched, value type and well-formedness preserved,
/// popups only appended, and rendering without any event in the subtree
/// changing nothing.
pub open spec fn edit_ok(
    v0: ValV,
    v1: ValV,
    s0: EditorStates,
    s1: EditorStates,
    events: Events,
    p0: Seq<Seq<char>>,
    p1: Seq<Seq<char>>,
    base: Seq<u64>,
) -> bool {
    &&& s1.wf()
    &&& same_outside(s0, s1, base)
    &&& v1.type_path() == v0.type_path()
    &&& v1.wf()
    &&& p0.is_prefix_of(p1)
    &&& (quiet(events, base) ==> v1 == v0 && p1 == p0)
    &&& (s0.st(base) is None && events.ev(base) is None ==> calm(s1.st(base)))
}

/// The same bundle for a composite's field list: length, names and field
/// types are preserved, every field stays well formed, and a quiet subtree
/// leaves the fields unchanged.
pub open spec fn fields_edit_ok(f0: Seq<FieldV>, f1: Seq<FieldV>, events: Events, base: Seq<u64>) -> bool {
    &&& f1.len() == f0.len()
    &&& forall|i: int| 0 <= i < f0.len() ==> (#[trigger] f1[i]).name == f0[i].name
    &&& forall|i: int|
        0 <= i < f0.len() ==> (#[trigger] f1[i]).value.type_path() == f0[i].value.type_path()
    &&& forall|i: int| 0 <= i < f0.len() ==> (#[trigger] f1[i]).value.wf()
    &&& (quiet(events, base) ==> f1 == f0)
}

/// In a quiet subtree every child subtree is quiet too.
pub proof fn lemma_quiet_child(events: Events, base: Seq<u64>, d: u64)
    requires
        quiet(events, base),
    ensures
        quiet(events, base.push(d)),
        events.ev(base) is None,
{
    assert forall|k: Seq<u64>| in_subtree(k, base.push(d)) implies #[trigger] events.ev(k)
        is None by {
        lemma_subtree_child(k, base, d);
    }
    lemma_subtree_refl(base);
}

/// A key outside a subtree is outside every child subtree, and a parent's
/// root key is outside its children's subtrees.
pub proof fn lemma_outside_child(k: Seq<u64>, base: Seq<u64>, d: u64)
    requires
        !in_subtree(k, base),
    ensures
        !in_subtree(k, base.push(d)),
{
    if in_subtree(k, base.push(d)) {
        lemma_subtree_child(k, base, d);
    }
}

/// A parent's own key lies in no child's subtree.
pub proof fn lemma_parent_not_in_child(base: Seq<u64>, d: u64)
    ensures
        !in_subtree(base, base.push(d)),
{
}

/// Staying inside a subtree composes across steps.
pub proof fn lemma_frame_trans(a: EditorStates, b: EditorStates, c: EditorStates, base: Seq<u64>)
    requires
        same_outside(a, b, base),
        same_outside(b, c, base),
    ensures
        same_outside(a, c, base),
{
    assert forall|k: Seq<u64>| !in_subtree(k, base) implies #[trigger] c.st(k) == a.st(k) by {
        assert(b.st(k) == a.st(k));
    }
    assert forall|k: Seq<u64>| !in_subtree(k, base) implies #[trigger] c.ct(k) == a.ct(k) by {
        assert(b.ct(k) == a.ct(k));
    }
}

/// A step that changes editor state at one key inside the subtree, and no
/// sessions, stays inside the subtree.
pub proof fn lemma_frame_st_key(a: EditorStates, b: EditorStates, key: Seq<u64>, base: Seq<u64>)
    requires
        in_subtree(key, base),
        forall|k: Seq<u64>| k != key ==> #[trigger] b.st(k) == a.st(k),
        b.ctor_lists == a.ctor_lists,
    ensures
        same_outside(a, b, base),
{
    assert forall|k: Seq<u64>| !in_subtree(k, base) implies #[trigger] b.st(k) == a.st(k) by {
        assert(k != key);
    }
    assert forall|k: Seq<u64>| !in_subtree(k, base) implies #[trigger] b.ct(k) == a.ct(k) by {}
}

/// A step that changes sessions at one key inside the subtree, and no
/// editor state, stays inside the subtree.
pub proof fn lemma_frame_ct_key(a: EditorStates, b: EditorStates, key: Seq<u64>, base: Seq<u64>)
    requires
        in_subtree(key, base),
        forall|k: Seq<u64>| k != key ==> #[trigger] b.ct(k) == a.ct(k),
        b.state == a.state,
    ensures
        same_outside(a, b, base),
{
    assert forall|k: Seq<u64>| !in_subtree(k, base) implies #[trigger] b.ct(k) == a.ct(k) by {
        assert(k != key);
    }
    assert forall|k: Seq<u64>| !in_subtree(k, base) implies #[trigger] b.st(k) == a.st(k) by {}
}

/// Prefix of popups composes across steps.
pub proof fn lemma_prefix_trans(a: Seq<Seq<char>>, b: Seq<Seq<char>>, c: Seq<Seq<char>>)
    requires
        a.is_prefix_of(b),
        b.is_prefix_of(c),
    ensures
        a.is_prefix_of(c),
{
    assert(a =~= c.subrange(0, a.len() as int));
}

/// Appending a popup keeps the earlier ones in place.
pub proof fn lemma_prefix_push(a: Seq<Seq<char>>, m: Seq<char>)
    ensures
        a.is_prefix_of(a.push(m)),
{
    assert(a =~= a.push(m).subrange(0, a.len() as int));
}

/// An earlier popup keeps its place and content under later appends.
pub proof fn lemma_prefix_index(a: Seq<Seq<char>>, c: Seq<Seq<char>>, i: int)
    requires
        a.is_prefix_of(c),
        0 <= i < a.len(),
    ensures
        c[i] == a[i],
{
    assert(a[i] == c.subrange(0, a.len() as int)[i]);
}

/// The subtree of a rendering root holds exactly the identities that start
/// with its tag.
pub proof fn lemma_root_subtree(k: Seq<u64>, tag: u64)
    ensures
        in_subtree(k, seq![tag]) <==> (k.len() >= 1 && k[0] == tag),
{
    if k.len() >= 1 && k[0] == tag {
        assert(seq![tag] =~= k.subrange(0, 1));
    }
    if in_subtree(k, seq![tag]) {
        assert(seq![tag] == k.subrange(0, 1));
        assert(k.subrange(0, 1)[0] == k[0]);
    }
}

/// A step confined to a child's subtree is confined to the parent's.
pub proof fn lemma_frame_sub(a: EditorStates, b: EditorStates, base: Seq<u64>, d: u64)
    requires
        same_outside(a, b, base.push(d)),
    ensures
        same_outside(a, b, base),
{
    assert forall|k: Seq<u64>| !in_subtree(k, base) implies #[trigger] b.st(k) == a.st(k) by {
        lemma_outside_child(k, base, d);
    }
    assert forall|k: Seq<u64>| !in_subtree(k, base) implies #[trigger] b.ct(k) == a.ct(k) by {
        lemma_outside_child(k, base, d);
    }
}

/// The per-field guarantees of rendering a composite under `base`: names,
/// types and well-formedness are kept, an untouched field keeps its value,
/// and a numeric or text leaf field follows the text-edit commit law at its
/// child identity.
pub open spec fn composite_fields_ok(
    table: ReprEditors,
    f0: Seq<FieldV>,
    f1: Seq<FieldV>,
    events: Events,
    base: Seq<u64>,
    fuel: u64,
) -> bool {
    &&& fields_edit_ok(f0, f1, events, base)
    &&& forall|i: int|
        0 <= i < f0.len() && quiet(events, base.push(i as u64)) ==> (#[trigger] f1[i]).value
            == f0[i].value
    &&& (fuel >= 2 ==> forall|i: int|
        0 <= i < f0.len() ==> (table.spec_get((#[trigger] f0[i]).value.type_path())
            matches EditorKind::Num(kind) ==> (f0[i].value matches ValV::Num {
            kind: k2,
            value: prev,
        } ==> (k2 == kind ==> f1[i].value == (ValV::Num {
            kind,
            value: spec_num_after(kind, events.ev(base.push(i as u64)), prev),
        })))))
    &&& (fuel >= 2 ==> forall|i: int|
        0 <= i < f0.len() ==> (table.spec_get((#[trigger] f0[i]).value.type_path())
            == EditorKind::Text ==> (f0[i].value matches ValV::Text { value: prev }
            ==> f1[i].value == (ValV::Text {
            value: spec_text_after(events.ev(base.push(i as u64)), prev),
        }))))
}

/// The guarantees of rendering an enum payload headless under `base`: a
/// unit payload passes through; a tuple or struct payload keeps its shape
/// and its fields follow the composite edit law at `base`.
pub open spec fn payload_fields_ok(
    table: ReprEditors,
    p0: PayloadV,
    p1: PayloadV,
    events: Events,
    base: Seq<u64>,
    fuel: u64,
) -> bool {
    &&& (p0 is Unit ==> p1 == p0)
    &&& (p0 matches PayloadV::Tuple(f0) ==> (f0.len() < 0xffffffff ==> (p1
        matches PayloadV::Tuple(f1) && composite_fields_ok(table, f0, f1, events, base, fuel))))
    &&& (p0 matches PayloadV::Struct(f0) ==> (f0.len() < 0xffffffff ==> (p1
        matches PayloadV::Struct(f1) && composite_fields_ok(table, f0, f1, events, base, fuel))))
}

/// The per-element guarantees of rendering a list or array under `base`:/// The per-element guarantees of rendering a list or array under `base`:
/// the element count and element types are kept, every element stays well
/// formed, an untouched element keeps its value, and a numeric or text leaf
/// element follows the text-edit commit law at its child identity.
pub open spec fn items_edit_ok(
    table: ReprEditors,
    v0: Seq<ValV>,
    v1: Seq<ValV>,
    events: Events,
    base: Seq<u64>,
    fuel: u64,
) -> bool {
    &&& v1.len() == v0.len()
    &&& forall|i: int| 0 <= i < v0.len() ==> (#[trigger] v1[i]).type_path() == v0[i].type_path()
    &&& forall|i: int| 0 <= i < v0.len() ==> (#[trigger] v1[i]).wf()
    &&& (quiet(events, base) ==> v1 == v0)
    &&& forall|i: int|
        0 <= i < v0.len() && quiet(events, base.push(i as u64)) ==> (#[trigger] v1[i]) == v0[i]
    &&& (fuel >= 2 ==> forall|i: int|
        0 <= i < v0.len() ==> (table.spec_get((#[trigger] v0[i]).type_path())
            matches EditorKind::Num(kind) ==> (v0[i] matches ValV::Num { kind: k2, value: prev }
            ==> (k2 == kind ==> v1[i] == (ValV::Num {
            kind,
            value: spec_num_after(kind, events.ev(base.push(i as u64)), prev),
        })))))
    &&& (fuel >= 2 ==> forall|i: int|
        0 <= i < v0.len() ==> (table.spec_get((#[trigger] v0[i]).type_path()) == EditorKind::Text
            ==> (v0[i] matches ValV::Text { value: prev } ==> v1[i] == (ValV::Text {
            value: spec_text_after(events.ev(base.push(i as u64)), prev),
        }))))
}

/// The per-entry guarantees of rendering a map under `base`: keys are
/// immutable, entry values keep their types and well-formedness, an
/// untouched value keeps its content, and a numeric or text leaf value
/// follows the text-edit commit law at its child identity, whose
/// discriminant is the entry count plus the entry index.
pub open spec fn map_entries_edit_ok(
    table: ReprEditors,
    e0: Seq<(ValV, ValV)>,
    e1: Seq<(ValV, ValV)>,
    events: Events,
    base: Seq<u64>,
    fuel: u64,
) -> bool {
    &&& e1.len() == e0.len()
    &&& forall|i: int| 0 <= i < e0.len() ==> (#[trigger] e1[i]).0 == e0[i].0
    &&& forall|i: int| 0 <= i < e0.len() ==> (#[trigger] e1[i]).1.type_path() == e0[i].1.type_path()
    &&& forall|i: int| 0 <= i < e0.len() ==> (#[trigger] e1[i]).1.wf()
    &&& (quiet(events, base) ==> e1 == e0)
    &&& forall|i: int|
        0 <= i < e0.len() && quiet(events, base.push((e0.len() + i) as u64)) ==> (#[trigger] e1[i]).1 == e0[i].1
    &&& (fuel >= 2 ==> forall|i: int|
        0 <= i < e0.len() ==> (table.spec_get((#[trigger] e0[i]).1.type_path())
            matches EditorKind::Num(kind) ==> (e0[i].1 matches ValV::Num { kind: k2, value: prev }
            ==> (k2 == kind ==> e1[i].1 == (ValV::Num {
            kind,
            value: spec_num_after(kind, events.ev(base.push((e0.len() + i) as u64)), prev),
        })))))
    &&& (fuel >= 2 ==> forall|i: int|
        0 <= i < e0.len() ==> (table.spec_get((#[trigger] e0[i]).1.type_path())
            == EditorKind::Text ==> (e0[i].1 matches ValV::Text { value: prev } ==> e1[i].1
            == (ValV::Text {
            value: spec_text_after(events.ev(base.push((e0.len() + i) as u64)), prev),
        }))))
}

/// An editor for composite values: structs, tuples, tuple structs, and the
/// active payloads of enums. Renders one row per field, recursing into each
/// field's value via the editor table; re-establishes the composite marker
/// at its own identity, and when that marker is fresh — first render, or a
/// shape change replaced a stale buffer — clears every direct child's state
/// before rendering, so no stale state leaks into the new children.
/// Freshness cascades: a cleared child that is itself a composite
/// re-initializes fresh on this same frame and clears its own children in
/// turn, level by level down the rendered tree. The contract states the
/// clearing one level per call — the freshness clause below — and each
/// recursive call restates it one level further down; identities outside
/// the rendered tree (beyond the field count, or under a leaf) are not
/// visited and keep whatever state they had, as in a per-position identity
/// scheme they belong to no live widget.
/// Headless rendering differs only in presentation.
pub fn composite_editor(
    table: &ReprEditors,
    reg: &TypeRegistry,
    fields: Vec<FieldVal>,
    states: &mut EditorStates,
    events: &Events,
    popups: &mut Popups,
    id: &WidgetId,
    headless: bool,
    fuel: u64,
) -> (r: Vec<FieldVal>)
    requires
        old(states).wf(),
        reg.wf(),
        fields_wf(fields_view(fields@)),
        fuel >= 1,
        fields@.len() < 0xffffffff,
    ensures
        final(states).wf(),
        same_outside(*old(states), *final(states), id@),
        final(states).stv(id@) == Some(EditorStateV::Composite),
        old(popups)@.is_prefix_of(final(popups)@),
        composite_fields_ok(*table, fields_view(fields@), fields_view(r@), *events, id@, fuel),
        fields_wf(fields_view(r@)),
        quiet(*events, id@) ==> final(popups)@ == old(popups)@,
        old(states).stv(id@) != Some(EditorStateV::Composite) ==> forall|i: int|
            0 <= i < fields@.len() && events.ev(id@.push(i as u64)) is None ==> calm(
                #[trigger] final(states).st(id@.push(i as u64)),
            ),
    decreases fuel, 0int,
{
    let ghost orig = fields@;
    let ghost s0 = *states;
    let ghost p0 = popups@;
    proof {
        lemma_subtree_refl(id@);
        lemma_fields_view(orig);
        lemma_fields_wf_index(fields_view(orig));
        assert forall|j: int| 0 <= j < orig.len() implies field_view(
            #[trigger] orig[j],
        ).value.wf() by {
            assert(fields_view(orig)[j] == field_view(orig[j]));
        }
    }
    let fresh = match states.get(id) {
        Some(st) => match st {
            EditorState::Composite => false,
            EditorState::TextEdit { .. } => true,
        },
        None => true,
    };
    if fresh {
        states.insert(id.dup(), EditorState::Composite);
        let mut i: usize = 0;
        while i < fields.len()
            invariant
                states.wf(),
                i <= fields@.len(),
                fields@ == orig,
                same_outside(s0, *states, id@),
                states.stv(id@) == Some(EditorStateV::Composite),
                states.ct(id@) == s0.ct(id@),
                forall|j: int| 0 <= j < i ==> #[trigger] states.st(id@.push(j as u64)) is None,
            decreases fields@.len() - i,
        {
            let child = id.child(i as u64);
            let ghost s_pre = *states;
            states.remove(&child);
            proof {
                assert(in_subtree(child@, id@)) by {
                    lemma_subtree_refl(id@.push(i as u64));
                    lemma_subtree_child(child@, id@, i as u64);
                }
                assert forall|k: Seq<u64>| !in_subtree(k, id@) implies states.st(k) == s0.st(k)
                    && states.ct(k) == s0.ct(k) by {
                    assert(k != child@);
                    assert(states.st(k) == s_pre.st(k));
                    assert(s_pre.st(k) == s0.st(k));
                    assert(states.ctor_lists == s_pre.ctor_lists);
                    assert(states.ct(k) == s_pre.ct(k));
                    assert(s_pre.ct(k) == s0.ct(k));
                }
                lemma_parent_not_in_child(id@, i as u64);
                assert(id@ != child@);
                assert forall|j: int| 0 <= j < i + 1 implies #[trigger] states.st(
                    id@.push(j as u64),
                ) is None by {
                    if j < i {
                        lemma_subtree_refl(id@.push(j as u64));
                        lemma_sibling_subtrees_disjoint(id@.push(j as u64), id@, j as u64, i as u64);
                        assert(id@.push(j as u64) != child@);
                        assert(states.st(id@.push(j as u64)) == s_pre.st(id@.push(j as u64)));
                    }
                }
            }
            i += 1;
        }
    }
    let ghost s1 = *states;
    let mut rest = fields;
    let mut out: Vec<FieldVal> = Vec::new();
    let n = rest.len();
    let mut i: usize = 0;
    while i < n
        invariant
            states.wf(),
            reg.wf(),
            fuel >= 1,
            n == orig.len(),
            n < 0xffffffff,
            i <= n,
            rest@ == orig.skip(i as int),
            out@.len() == i,
            fields_view(orig).len() == orig.len(),
            forall|j: int| 0 <= j < orig.len() ==> #[trigger] field_view(orig[j]) == fields_view(
                orig,
            )[j],
            fields_wf(fields_view(orig)),
            forall|j: int| 0 <= j < orig.len() ==> field_view(#[trigger] orig[j]).value.wf(),
            same_outside(s0, *states, id@),
            same_outside(s1, *states, id@),
            states.stv(id@) == Some(EditorStateV::Composite),
            old(popups)@.is_prefix_of(popups@),
            p0 == old(popups)@,
            quiet(*events, id@) ==> popups@ == p0,
            forall|j: int| 0 <= j < i ==> (#[trigger] out@[j]).name == orig[j].name,
            forall|j: int|
                0 <= j < i ==> field_view(#[trigger] out@[j]).value.type_path() == field_view(
                    orig[j],
                ).value.type_path(),
            forall|j: int| 0 <= j < i ==> field_view(#[trigger] out@[j]).value.wf(),
            quiet(*events, id@) ==> forall|j: int|
                0 <= j < i ==> field_view(#[trigger] out@[j]) == field_view(orig[j]),
            forall|j: int|
                0 <= j < i && quiet(*events, id@.push(j as u64)) ==> field_view(
                    #[trigger] out@[j],
                ).value == field_view(orig[j]).value,
            fuel >= 2 ==> forall|j: int|
                0 <= j < i ==> (table.spec_get(
                    field_view(#[trigger] orig[j]).value.type_path(),
                ) matches EditorKind::Num(kind) ==> (field_view(orig[j]).value matches ValV::Num {
                    kind: k2,
                    value: prev,
                } ==> (k2 == kind ==> field_view(out@[j]).value == (ValV::Num {
                    kind,
                    value: spec_num_after(kind, events.ev(id@.push(j as u64)), prev),
                })))),
            fuel >= 2 ==> forall|j: int|
                0 <= j < i ==> (table.spec_get(
                    field_view(#[trigger] orig[j]).value.type_path(),
                ) == EditorKind::Text ==> (field_view(orig[j]).value matches ValV::Text {
                    value: prev,
                } ==> field_view(out@[j]).value == (ValV::Text {
                    value: spec_text_after(events.ev(id@.push(j as u64)), prev),
                }))),
            fresh ==> forall|j: int|
                i <= j < n ==> #[trigger] states.st(id@.push(j as u64)) is None,
            fresh ==> forall|j: int|
                0 <= j < i && events.ev(id@.push(j as u64)) is None ==> calm(
                    #[trigger] states.st(id@.push(j as u64)),
                ),
        decreases n - i,
    {
        proof {
            assert(rest@[0] == orig[i as int]);
            assert(rest@.drop_first() =~= orig.skip(i + 1 as int));
        }
        let fv = rest.remove(0);
        let child = id.child(i as u64);
        let ghost s_before = *states;
        let ghost p_before = popups@;
        proof {
            assert(field_view(orig[i as int]).value == fv.value@);
            assert(fv.value@.wf());
            if quiet(*events, id@) {
                lemma_quiet_child(*events, id@, i as u64);
            }
        }
        let edited = dispatch_editor(table, reg, fv.value, states, events, popups, &child, fuel
            - 1);
        out.push(FieldVal { name: fv.name, value: edited });
        proof {
            assert(in_subtree(child@, id@)) by {
                lemma_subtree_refl(child@);
                lemma_subtree_child(child@, id@, i as u64);
            }
            assert forall|k: Seq<u64>| !in_subtree(k, id@) implies !in_subtree(k, child@) by {
                lemma_outside_child(k, id@, i as u64);
            }
            lemma_parent_not_in_child(id@, i as u64);
            assert(states.st(id@) == s_before.st(id@));
            if fresh {
                assert forall|j: int| i + 1 <= j < n implies #[trigger] states.st(
                    id@.push(j as u64),
                ) is None by {
                    lemma_subtree_refl(id@.push(j as u64));
                    lemma_sibling_subtrees_disjoint(id@.push(j as u64), id@, j as u64, i as u64);
                }
                assert forall|j: int|
                    0 <= j < i + 1 && events.ev(id@.push(j as u64)) is None implies calm(
                    #[trigger] states.st(id@.push(j as u64)),
                ) by {
                    if j < i {
                        lemma_subtree_refl(id@.push(j as u64));
                        lemma_sibling_subtrees_disjoint(id@.push(j as u64), id@, j as u64, i as u64);
                    }
                }
            }
        }
        i += 1;
    }
    proof {
        assert(rest@.len() == 0);
        lemma_fields_view(out@);
        lemma_fields_wf_index(fields_view(out@));
        if quiet(*events, id@) {
            assert(fields_view(out@) =~= fields_view(orig));
        }
    }
    out
}

/// An editor for lists: one indexed row per element, recursing per element.
/// Adding and removing elements is unsupported by policy, so the element
/// count is preserved.
pub fn list_editor(
    table: &ReprEditors,
    reg: &TypeRegistry,
    items: Vec<Value>,
    states: &mut EditorStates,
    events: &Events,
    popups: &mut Popups,
    id: &WidgetId,
    fuel: u64,
) -> (r: Vec<Value>)
    requires
        old(states).wf(),
        reg.wf(),
        crate::value::values_wf(values_view(items@)),
        fuel >= 1,
        items@.len() < 0xffffffff,
    ensures
        final(states).wf(),
        same_outside(*old(states), *final(states), id@),
        final(states).stv(id@) == Some(EditorStateV::Composite),
        old(popups)@.is_prefix_of(final(popups)@),
        items_edit_ok(*table, values_view(items@), values_view(r@), *events, id@, fuel),
        crate::value::values_wf(values_view(r@)),
        quiet(*events, id@) ==> final(popups)@ == old(popups)@,
    decreases fuel, 0int,
{
    let ghost orig = items@;
    let ghost s0 = *states;
    let ghost p0 = popups@;
    proof {
        lemma_subtree_refl(id@);
        lemma_values_view(orig);
        lemma_values_wf_index(values_view(orig));
        assert forall|j: int| 0 <= j < orig.len() implies (#[trigger] orig[j]@).wf() by {
            assert(values_view(orig)[j] == orig[j]@);
        }
    }
    let fresh = match states.get(id) {
        Some(st) => match st {
            EditorState::Composite => false,
            EditorState::TextEdit { .. } => true,
        },
        None => true,
    };
    if fresh {
        states.insert(id.dup(), EditorState::Composite);
    }
    let ghost s1 = *states;
    let mut rest = items;
    let mut out: Vec<Value> = Vec::new();
    let n = rest.len();
    let mut i: usize = 0;
    while i < n
        invariant
            states.wf(),
            reg.wf(),
            fuel >= 1,
            n == orig.len(),
            n < 0xffffffff,
            i <= n,
            rest@ == orig.skip(i as int),
            out@.len() == i,
            values_view(orig).len() == orig.len(),
            forall|j: int| 0 <= j < orig.len() ==> #[trigger] orig[j]@ == values_view(orig)[j],
            crate::value::values_wf(values_view(orig)),
            forall|j: int| 0 <= j < orig.len() ==> (#[trigger] orig[j]@).wf(),
            same_outside(s0, *states, id@),
            states.stv(id@) == Some(EditorStateV::Composite),
            old(popups)@.is_prefix_of(popups@),
            p0 == old(popups)@,
            quiet(*events, id@) ==> popups@ == p0,
            forall|j: int|
                0 <= j < i ==> (#[trigger] out@[j]@).type_path() == orig[j]@.type_path(),
            forall|j: int| 0 <= j < i ==> (#[trigger] out@[j]@).wf(),
            quiet(*events, id@) ==> forall|j: int| 0 <= j < i ==> #[trigger] out@[j]@ == orig[j]@,
            forall|j: int|
                0 <= j < i && quiet(*events, id@.push(j as u64)) ==> #[trigger] out@[j]@ == orig[j]@,
            fuel >= 2 ==> forall|j: int|
                0 <= j < i ==> (table.spec_get((#[trigger] orig[j]@).type_path())
                    matches EditorKind::Num(kind) ==> (orig[j]@ matches ValV::Num {
                    kind: k2,
                    value: prev,
                } ==> (k2 == kind ==> out@[j]@ == (ValV::Num {
                    kind,
                    value: spec_num_after(kind, events.ev(id@.push(j as u64)), prev),
                })))),
            fuel >= 2 ==> forall|j: int|
                0 <= j < i ==> (table.spec_get((#[trigger] orig[j]@).type_path())
                    == EditorKind::Text ==> (orig[j]@ matches ValV::Text { value: prev }
                    ==> out@[j]@ == (ValV::Text {
                    value: spec_text_after(events.ev(id@.push(j as u64)), prev),
                }))),
        decreases n - i,
    {
        proof {
            assert(rest@[0] == orig[i as int]);
            assert(rest@.drop_first() =~= orig.skip(i + 1 as int));
            if quiet(*events, id@) {
                lemma_quiet_child(*events, id@, i as u64);
            }
        }
        let item = rest.remove(0);
        let child = id.child(i as u64);
        let ghost s_before = *states;
        let edited = dispatch_editor(table, reg, item, states, events, popups, &child, fuel - 1);
        out.push(edited);
        proof {
            assert forall|k: Seq<u64>| !in_subtree(k, id@) implies !in_subtree(k, child@) by {
                lemma_outside_child(k, id@, i as u64);
            }
            lemma_parent_not_in_child(id@, i as u64);
            assert(states.st(id@) == s_before.st(id@));
        }
        i += 1;
    }
    proof {
        lemma_values_view(out@);
        lemma_values_wf_index(values_view(out@));
        if quiet(*events, id@) {
            assert(values_view(out@) =~= values_view(orig));
        }
    }
    out
}

/// An editor for fixed-size arrays: like the list editor, one indexed row
/// per element, without structural mutation.
pub fn array_editor(
    table: &ReprEditors,
    reg: &TypeRegistry,
    items: Vec<Value>,
    states: &mut EditorStates,
    events: &Events,
    popups: &mut Popups,
    id: &WidgetId,
    fuel: u64,
) -> (r: Vec<Value>)
    requires
        old(states).wf(),
        reg.wf(),
        crate::value::values_wf(values_view(items@)),
        fuel >= 1,
        items@.len() < 0xffffffff,
    ensures
        final(states).wf(),
        same_outside(*old(states), *final(states), id@),
        final(states).stv(id@) == Some(EditorStateV::Composite),
        old(popups)@.is_prefix_of(final(popups)@),
        items_edit_ok(*table, values_view(items@), values_view(r@), *events, id@, fuel),
        crate::value::values_wf(values_view(r@)),
        quiet(*events, id@) ==> final(popups)@ == old(popups)@,
    decreases fuel, 1int,
{
    list_editor(table, reg, items, states, events, popups, id, fuel)
}

/// An editor for maps: one row per entry, labeled by its key; only the
/// value is editable, keys are immutable through this editor, and entries
/// cannot be added or removed.
pub fn map_editor(
    table: &ReprEditors,
    reg: &TypeRegistry,
    entries: Vec<(Value, Value)>,
    states: &mut EditorStates,
    events: &Events,
    popups: &mut Popups,
    id: &WidgetId,
    fuel: u64,
) -> (r: Vec<(Value, Value)>)
    requires
        old(states).wf(),
        reg.wf(),
        crate::value::entries_wf(entries_view(entries@)),
        fuel >= 1,
        entries@.len() < 0x7fffffff,
    ensures
        final(states).wf(),
        same_outside(*old(states), *final(states), id@),
        final(states).stv(id@) == Some(EditorStateV::Composite),
        old(popups)@.is_prefix_of(final(popups)@),
        map_entries_edit_ok(*table, entries_view(entries@), entries_view(r@), *events, id@, fuel),
        crate::value::entries_wf(entries_view(r@)),
        quiet(*events, id@) ==> final(popups)@ == old(popups)@,
    decreases fuel, 0int,
{
    let ghost orig = entries@;
    let ghost s0 = *states;
    let ghost p0 = popups@;
    proof {
        lemma_subtree_refl(id@);
        lemma_entries_view(orig);
        lemma_entries_wf_index(entries_view(orig));
        assert forall|j: int| 0 <= j < orig.len() implies (#[trigger] orig[j].0@).wf()
            && orig[j].1@.wf() by {
            assert(entries_view(orig)[j] == (orig[j].0@, orig[j].1@));
        }
    }
    let fresh = match states.get(id) {
        Some(st) => match st {
            EditorState::Composite => false,
            EditorState::TextEdit { .. } => true,
        },
        None => true,
    };
    if fresh {
        states.insert(id.dup(), EditorState::Composite);
    }
    let mut rest = entries;
    let mut out: Vec<(Value, Value)> = Vec::new();
    let n = rest.len();
    let mut i: usize = 0;
    while i < n
        invariant
            states.wf(),
            reg.wf(),
            fuel >= 1,
            n == orig.len(),
            n < 0x7fffffff,
            i <= n,
            rest@ == orig.skip(i as int),
            out@.len() == i,
            entries_view(orig).len() == orig.len(),
            forall|j: int|
                0 <= j < orig.len() ==> #[trigger] entries_view(orig)[j] == (orig[j].0@,
                orig[j].1@),
            crate::value::entries_wf(entries_view(orig)),
            forall|j: int| 0 <= j < orig.len() ==> ((#[trigger] orig[j]).0@).wf() && orig[j].1@.wf(),
            same_outside(s0, *states, id@),
            states.stv(id@) == Some(EditorStateV::Composite),
            old(popups)@.is_prefix_of(popups@),
            p0 == old(popups)@,
            quiet(*events, id@) ==> popups@ == p0,
            forall|j: int| 0 <= j < i ==> (#[trigger] out@[j]).0@ == orig[j].0@,
            forall|j: int|
                0 <= j < i ==> (#[trigger] out@[j]).1@.type_path() == orig[j].1@.type_path(),
            forall|j: int| 0 <= j < i ==> (#[trigger] out@[j]).1@.wf(),
            forall|j: int| 0 <= j < i ==> (#[trigger] out@[j]).0@.wf(),
            quiet(*events, id@) ==> forall|j: int|
                0 <= j < i ==> (#[trigger] out@[j]).1@ == orig[j].1@,
            forall|j: int|
                0 <= j < i && quiet(*events, id@.push((n + j) as u64))
                    ==> (#[trigger] out@[j]).1@ == orig[j].1@,
            fuel >= 2 ==> forall|j: int|
                0 <= j < i ==> (table.spec_get((#[trigger] orig[j].1@).type_path())
                    matches EditorKind::Num(kind) ==> (orig[j].1@ matches ValV::Num {
                    kind: k2,
                    value: prev,
                } ==> (k2 == kind ==> out@[j].1@ == (ValV::Num {
                    kind,
                    value: spec_num_after(kind, events.ev(id@.push((n + j) as u64)), prev),
                })))),
            fuel >= 2 ==> forall|j: int|
                0 <= j < i ==> (table.spec_get((#[trigger] orig[j].1@).type_path())
                    == EditorKind::Text ==> (orig[j].1@ matches ValV::Text { value: prev }
                    ==> out@[j].1@ == (ValV::Text {
                    value: spec_text_after(events.ev(id@.push((n + j) as u64)), prev),
                }))),
        decreases n - i,
    {
        proof {
            assert(rest@[0] == orig[i as int]);
            assert(rest@.drop_first() =~= orig.skip(i + 1 as int));
            if quiet(*events, id@) {
                lemma_quiet_child(*events, id@, (n + i) as u64);
            }
        }
        let pair = rest.remove(0);
        proof {
            assert(pair == orig[i as int]);
            assert(orig[i as int].0@.wf() && orig[i as int].1@.wf());
            assert(pair.1@.wf());
        }
        let child = id.child((n + i) as u64);
        let ghost s_before = *states;
        let edited = dispatch_editor(table, reg, pair.1, states, events, popups, &child, fuel - 1);
        out.push((pair.0, edited));
        proof {
            assert forall|k: Seq<u64>| !in_subtree(k, id@) implies !in_subtree(k, child@) by {
                lemma_outside_child(k, id@, (n + i) as u64);
            }
            lemma_parent_not_in_child(id@, (n + i) as u64);
            assert(states.st(id@) == s_before.st(id@));
        }
        i += 1;
    }
    proof {
        lemma_entries_view(out@);
        lemma_entries_wf_index(entries_view(out@));
        if quiet(*events, id@) {
            assert(entries_view(out@) =~= entries_view(orig));
        }
    }
    out
}

/// Edits a variant under construction with the proper editor: the payload
/// is rendered headless through the composite path.
impl VariantProxy {
    pub fn editor(
        self,
        table: &ReprEditors,
        reg: &TypeRegistry,
        states: &mut EditorStates,
        events: &Events,
        popups: &mut Popups,
        id: &WidgetId,
        fuel: u64,
    ) -> (r: VariantProxy)
        requires
            old(states).wf(),
            reg.wf(),
            self@.payload.wf(),
            fuel >= 1,
        ensures
            final(states).wf(),
            same_outside(*old(states), *final(states), id@),
            old(popups)@.is_prefix_of(final(popups)@),
            r@.variant == self@.variant,
            r@.payload.wf(),
            quiet(*events, id@) ==> r@ == self@ && final(popups)@ == old(popups)@,
            self@.payload is Unit ==> r@ == self@,
            payload_fields_ok(*table, self@.payload, r@.payload, *events, id@, fuel),
            old(states).st(id@) is None && events.ev(id@) is None ==> calm(final(states).st(id@)),
        decreases fuel, 1int,
    {
        let VariantProxy { variant, payload } = self;
        match payload {
            Payload::Unit => VariantProxy { variant, payload: Payload::Unit },
            Payload::Tuple(fields) => {
                proof {
                    lemma_fields_view(fields@);
                }
                if fields.len() >= 0xffffffff {
                    return VariantProxy { variant, payload: Payload::Tuple(fields) };
                }
                let edited = composite_editor(
                    table,
                    reg,
                    fields,
                    states,
                    events,
                    popups,
                    id,
                    true,
                    fuel,
                );
                VariantProxy { variant, payload: Payload::Tuple(edited) }
            },
            Payload::Struct(fields) => {
                proof {
                    lemma_fields_view(fields@);
                }
                if fields.len() >= 0xffffffff {
                    return VariantProxy { variant, payload: Payload::Struct(fields) };
                }
                let edited = composite_editor(
                    table,
                    reg,
                    fields,
                    states,
                    events,
                    popups,
                    id,
                    true,
                    fuel,
                );
                VariantProxy { variant, payload: Payload::Struct(edited) }
            },
        }
    }
}

impl Ctor {
    /// Poll a constructor: when a value is under construction, render it,
    /// clearing the content's state on the session's fresh frame, and
    /// return the constructed value when apply is clicked; until then the
    /// session persists across frames.
    pub fn poll(
        &mut self,
        table: &ReprEditors,
        reg: &TypeRegistry,
        states: &mut EditorStates,
        events: &Events,
        popups: &mut Popups,
        id: &WidgetId,
        fuel: u64,
    ) -> (r: Option<VariantProxy>)
        requires
            old(states).wf(),
            reg.wf(),
            fuel >= 1,
            match old(self)@.value {
                Some(p) => p.payload.wf(),
                None => true,
            },
        ensures
            final(states).wf(),
            same_outside(*old(states), *final(states), id@),
            old(popups)@.is_prefix_of(final(popups)@),
            match final(self)@.value {
                Some(q) => q.payload.wf(),
                None => true,
            },
            old(self)@.value is None ==> r is None && *final(self) == *old(self) && *final(states)
                == *old(states) && final(popups)@ == old(popups)@,
            old(self)@.value matches Some(p) ==> {
                &&& (r matches Some(q) ==> q@.variant == p.variant && q@.payload.wf())
                &&& (r matches Some(q) ==> payload_fields_ok(
                    *table,
                    p.payload,
                    q@.payload,
                    *events,
                    id@.push(0),
                    fuel,
                ))
                &&& (final(self)@.value matches Some(q) ==> payload_fields_ok(
                    *table,
                    p.payload,
                    q.payload,
                    *events,
                    id@.push(0),
                    fuel,
                ))
                &&& (old(self)@.fresh && events.ev(id@.push(0)) is None ==> calm(
                    final(states).st(id@.push(0)),
                ))
                &&& (final(self)@.value matches Some(q) ==> q.variant == p.variant)
                &&& (events.ev(id@) == Some(UiEvent::Apply) ==> r is Some && final(self)@.value
                    is None)
                &&& (events.ev(id@) != Some(UiEvent::Apply) ==> r is None && final(self)@.value
                    is Some && !final(self)@.fresh)
                &&& (quiet(*events, id@.push(0)) ==> (r matches Some(q) ==> q@ == p) && (final(self)@.value matches Some(q) ==> q == p))
                &&& (quiet(*events, id@) ==> final(popups)@ == old(popups)@)
            },
        decreases fuel, 2int,
    {
        let stored = self.value.take();
        match stored {
            None => None,
            Some(proxy) => {
                let content = id.child(0);
                if self.fresh {
                    states.remove(&content);
                }
                proof {
                    lemma_subtree_refl(content@);
                    lemma_subtree_child(content@, id@, 0);
                    assert forall|k: Seq<u64>| !in_subtree(k, id@) implies !in_subtree(
                        k,
                        content@,
                    ) by {
                        lemma_outside_child(k, id@, 0);
                    }
                    if quiet(*events, id@) {
                        lemma_quiet_child(*events, id@, 0);
                    }
                }
                let rendered = proxy.editor(table, reg, states, events, popups, &content, fuel);
                let apply = match events.get(id) {
                    Some(UiEvent::Apply) => true,
                    _ => false,
                };
                if apply {
                    self.value = None;
                    Some(rendered)
                } else {
                    self.value = Some(rendered);
                    if self.fresh {
                        self.fresh = false;
                    }
                    None
                }
            },
        }
    }
}

/// The note queued when a chosen variant cannot be defaulted.
pub fn synth_failure_note() -> (r: &'static str)
    ensures
        r@ == spec_synth_failure_note(),
{
    "failed to construct a default value for the chosen variant"
}

/// The note queued when a chosen variant cannot be defaulted.
pub open spec fn spec_synth_failure_note() -> Seq<char> {
    "failed to construct a default value for the chosen variant"@
}

/// The variant the user picked this frame, when the value's type resolves
/// to an enum shape and the picked index is declared.
pub open spec fn picked_variant(reg: TypeRegistry, tp: Seq<char>, ev: Option<UiEvent>) -> Option<
    VariantShape,
> {
    match (reg.spec_shape_of(tp), ev) {
        (Some(TypeShape::Enum { variants }), Some(UiEvent::PickVariant { index })) => if (
        index as int) < variants@.len() {
            Some(variants@[index as int])
        } else {
            None
        },
        _ => None,
    }
}

/// The enum-switching guarantees of rendering an enum value under `base`,
/// over the value before and after and the widget's constructor sessions
/// before and after: an unresolvable enum shape keeps the value and the
/// sessions; picking a unit variant applies it this frame; picking a data
/// variant keeps the value and opens one session holding the fully
/// defaulted instance; a failed synthesis keeps the value and opens no
/// session; confirming a pending session applies its value, empties the
/// session, and otherwise the active payload follows the composite edit law
/// at the payload child.
pub open spec fn enum_value_ok(
    table: ReprEditors,
    reg: TypeRegistry,
    v0: ValV,
    r: ValV,
    ct0: Seq<CtorV>,
    ct1: Seq<CtorV>,
    events: Events,
    base: Seq<u64>,
    fuel: u64,
) -> bool {
    &&& (v0 matches ValV::Enum { type_path: tp, .. } ==> (!(reg.spec_shape_of(tp) matches Some(
        TypeShape::Enum { .. },
    )) ==> r == v0 && ct1 == ct0))
    &&& (v0 matches ValV::Enum { type_path: tp, .. } ==> (picked_variant(reg, tp, events.ev(base))
        matches Some(vs) ==> {
        &&& (vs.data is Unit && no_pending_apply(ct0, events, base) ==> r == (ValV::Enum {
            type_path: tp,
            variant: vs.name@,
            payload: PayloadV::Unit,
        }))
        &&& (!(vs.data is Unit) ==> (spec_default_variant(reg, vs, fuel as nat) matches Some(p)
            ==> (quiet(events, base.push(1)) ==> ct1.len() >= 1 && ct1[0].value == Some(p)
            && !ct1[0].fresh)))
        &&& (!(vs.data is Unit) ==> (quiet(events, base.push(0)) && quiet(events, base.push(1))
            ==> r == v0))
        &&& (spec_default_variant(reg, vs, fuel as nat) is None && quiet(events, base.push(0))
            && quiet(events, base.push(1)) ==> r == v0)
        &&& (spec_default_variant(reg, vs, fuel as nat) is None && ct0.len() == 0 ==> ct1.len()
            <= 1 && (ct1.len() == 1 ==> ct1[0].value is None))
        &&& (spec_default_variant(reg, vs, fuel as nat) is None && ct0.len() >= 1 && ct0[0].value
            is None ==> ct1.len() >= 1 && ct1[0].value is None)
    }))
    &&& (v0 matches ValV::Enum { type_path: tp, .. } ==> (ct0.len() >= 1 ==> (ct0[0].value
        matches Some(p) ==> (picked_variant(reg, tp, events.ev(base)) is None && p.payload.wf()
        && events.ev(base.push(1)) == Some(UiEvent::Apply) && quiet(events, base.push(1).push(0))
        && quiet(events, base.push(0)) && (reg.spec_shape_of(tp) matches Some(
        TypeShape::Enum { .. },
    )) ==> r == (ValV::Enum { type_path: tp, variant: p.variant, payload: p.payload }) && ct1.len()
        >= 1 && ct1[0].value is None))))
    &&& (v0 matches ValV::Enum { type_path: tp, variant: var0, payload: pl0 } ==> ((
    reg.spec_shape_of(tp) matches Some(TypeShape::Enum { .. })) && picked_variant(
        reg,
        tp,
        events.ev(base),
    ) is None && no_pending_apply(ct0, events, base) ==> (r matches ValV::Enum {
        type_path: tp2,
        variant: var1,
        payload: pl1,
    } && tp2 == tp && var1 == var0 && payload_fields_ok(table, pl0, pl1, events, base.push(0), fuel))))
}

/// The popup guarantees of rendering an enum value under `base`: an
/// unresolvable shape and a unit pick over an idle session queue nothing; a
/// failed synthesis queues the failure note, exactly once when the child
/// subtrees are quiet.
pub open spec fn enum_popups_ok(
    reg: TypeRegistry,
    v0: ValV,
    ct0: Seq<CtorV>,
    events: Events,
    p0: Seq<Seq<char>>,
    p1: Seq<Seq<char>>,
    base: Seq<u64>,
    fuel: u64,
) -> bool {
    &&& (v0 matches ValV::Enum { type_path: tp, .. } ==> (!(reg.spec_shape_of(tp) matches Some(
        TypeShape::Enum { .. },
    )) ==> p1 == p0))
    &&& (v0 matches ValV::Enum { type_path: tp, .. } ==> (picked_variant(reg, tp, events.ev(base))
        matches Some(vs) ==> {
        &&& (vs.data is Unit && (ct0.len() == 0 || ct0[0].value is None) ==> p1 == p0)
        &&& (spec_default_variant(reg, vs, fuel as nat) is None && quiet(events, base.push(0))
            && quiet(events, base.push(1)) ==> p1 == p0.push(spec_synth_failure_note()))
        &&& (spec_default_variant(reg, vs, fuel as nat) is None ==> p1.len() > p0.len() && p1[
            p0.len() as int] == spec_synth_failure_note())
    }))
}

/// No pending constructor session can be confirmed this frame: there is no
/// session, the first session holds no value, or no apply click was
/// reported at the constructor's identity.
pub open spec fn no_pending_apply(ct0: Seq<CtorV>, events: Events, base: Seq<u64>) -> bool {
    ||| ct0.len() == 0
    ||| ct0[0].value is None
    ||| events.ev(base.push(1)) != Some(UiEvent::Apply)
}

/// Everything one dispatch guarantees of the value it renders at `base`,
/// over the value before and after, the constructor sessions of `base`
/// before and after, and the frame's events: the per-slot contract of the
/// rendering entry point. With no budget, only preservation is promised.
pub open spec fn rendered_ok(
    table: ReprEditors,
    reg: TypeRegistry,
    v0: ValV,
    v1: ValV,
    ct0: Seq<CtorV>,
    ct1: Seq<CtorV>,
    events: Events,
    base: Seq<u64>,
    fuel: u64,
) -> bool {
    &&& v1.type_path() == v0.type_path()
    &&& v1.wf()
    &&& (quiet(events, base) ==> v1 == v0)
    &&& (fuel >= 1 && table.spec_get(v0.type_path()) == EditorKind::Bool ==> (v0
        matches ValV::Bool { value: prev } ==> v1 == (ValV::Bool {
        value: spec_bool_after(events.ev(base), prev),
    })))
    &&& (fuel >= 1 ==> (table.spec_get(v0.type_path()) matches EditorKind::Num(kind) ==> (v0
        matches ValV::Num { kind: k2, value: prev } ==> (k2 == kind ==> v1 == (ValV::Num {
        kind,
        value: spec_num_after(kind, events.ev(base), prev),
    })))))
    &&& (fuel >= 1 && table.spec_get(v0.type_path()) == EditorKind::Text ==> (v0
        matches ValV::Text { value: prev } ==> v1 == (ValV::Text {
        value: spec_text_after(events.ev(base), prev),
    })))
    &&& (fuel >= 1 && table.spec_get(v0.type_path()) == EditorKind::Reflect ==> {
        &&& (v0 matches ValV::Composite { kind: ck, type_path: tp, fields: f0 } ==> (f0.len()
            < 0xffffffff ==> (v1 matches ValV::Composite { kind: ck2, type_path: tp2, fields: f1 }
            && ck2 == ck && tp2 == tp && composite_fields_ok(table, f0, f1, events, base, fuel))))
        &&& (v0 matches ValV::List { type_path: tp, items: i0 } ==> (i0.len() < 0xffffffff ==> (v1
            matches ValV::List { type_path: tp2, items: i1 } && tp2 == tp && items_edit_ok(
            table,
            i0,
            i1,
            events,
            base,
            fuel,
        ))))
        &&& (v0 matches ValV::Array { type_path: tp, items: i0 } ==> (i0.len() < 0xffffffff ==> (v1
            matches ValV::Array { type_path: tp2, items: i1 } && tp2 == tp && items_edit_ok(
            table,
            i0,
            i1,
            events,
            base,
            fuel,
        ))))
        &&& (v0 matches ValV::Mapping { type_path: tp, entries: e0 } ==> (e0.len() < 0x7fffffff
            ==> (v1 matches ValV::Mapping { type_path: tp2, entries: e1 } && tp2 == tp
            && map_entries_edit_ok(table, e0, e1, events, base, fuel))))
        &&& enum_value_ok(table, reg, v0, v1, ct0, ct1, events, base, fuel)
    })
}

/// An editor for enums: a menu offers every declared variant. Picking a
/// unit variant applies immediately; picking a variant with data
/// synthesizes a fully defaulted instance and opens one constructor
/// session, applied when the user confirms; a failed synthesis queues
/// exactly one popup and leaves the selection unchanged. The active
/// variant's payload is rendered headless through the composite path.
pub fn enum_editor(
    table: &ReprEditors,
    reg: &TypeRegistry,
    v: Value,
    states: &mut EditorStates,
    events: &Events,
    popups: &mut Popups,
    id: &WidgetId,
    fuel: u64,
) -> (r: Value)
    requires
        old(states).wf(),
        reg.wf(),
        v@.wf(),
        fuel >= 1,
    ensures
        edit_ok(v@, r@, *old(states), *final(states), *events, old(popups)@, final(popups)@, id@),
        enum_value_ok(
            *table,
            *reg,
            v@,
            r@,
            old(states).ctv(id@),
            final(states).ctv(id@),
            *events,
            id@,
            fuel,
        ),
        enum_popups_ok(
            *reg,
            v@,
            old(states).ctv(id@),
            *events,
            old(popups)@,
            final(popups)@,
            id@,
            fuel,
        ),
        v@ matches ValV::Enum { type_path: tp, .. } ==> (!(reg.spec_shape_of(tp) matches Some(
            TypeShape::Enum { .. },
        )) ==> *final(states) == *old(states)),
    decreases fuel, 3int,
{
    let ghost v0 = v@;
    let ghost s0 = *states;
    let ghost p0 = popups@;
    proof {
        lemma_subtree_refl(id@);
    }
    match v {
        Value::Enum { type_path, variant, payload } => {
            let is_enum_shape = match reg.shape_of(type_path.as_str()) {
                Some(TypeShape::Enum { .. }) => true,
                _ => false,
            };
            if !is_enum_shape {
                // unable to reflect the enum type: render nothing
                return Value::Enum { type_path, variant, payload };
            }
            let mut variant = variant;
            let mut payload = payload;
            match reg.shape_of(type_path.as_str()) {
                Some(TypeShape::Enum { variants }) => {
                    // the variant menu
                    match events.get(id) {
                        Some(UiEvent::PickVariant { index }) => {
                            if *index < variants.len() {
                                match default_variant_value(reg, &variants[*index], fuel) {
                                    Some(proxy) => {
                                        proof {
                                            crate::synth::lemma_default_variant_wf(
                                                *reg,
                                                variants@[index as int],
                                                fuel as nat,
                                            );
                                            assert(proxy@.payload.wf());
                                        }
                                        let is_unit = match &variants[*index].data {
                                            VariantData::Unit => true,
                                            _ => false,
                                        };
                                        if is_unit {
                                            let VariantProxy { variant: vn, payload: vp } = proxy;
                                            variant = vn;
                                            payload = vp;
                                        } else {
                                            let ghost s_here = *states;
                                            let mut cs = states.ctors(id);
                                            let ghost s_took = *states;
                                            proof {
                                                assert(ctors_list_wf(s_here.ctv(id@)));
                                                assert(cs@ == s_here.ctv(id@));
                                            }
                                            let mut c = cs.first();
                                            c.start(proxy);
                                            cs.restore(0, c);
                                            proof {
                                                assert(ctor_wf(c@));
                                                assert forall|j: int|
                                                    0 <= j < cs@.len() implies ctor_wf(
                                                    #[trigger] cs@[j],
                                                ) by {}
                                            }
                                            states.put_ctors(id.dup(), cs);
                                            proof {
                                                lemma_frame_ct_key(s_here, s_took, id@, id@);
                                                lemma_frame_ct_key(s_took, *states, id@, id@);
                                                lemma_frame_trans(s_here, s_took, *states, id@);
                                            }
                                        }
                                    },
                                    None => {
                                        let ghost p_pre = popups@;
                                        popups.add(
                                            Popup::new(String::from_str(synth_failure_note())),
                                        );
                                        proof {
                                            lemma_prefix_push(p_pre, spec_synth_failure_note());
                                        }
                                    },
                                }
                            }
                        },
                        _ => {},
                    }
                },
                _ => {},
            }
            let ghost s_pick = *states;
            let ghost p_pick = popups@;
            proof {
                assert(same_outside(s0, s_pick, id@));
                assert(p0.is_prefix_of(p_pick)) by {
                    if p_pick == p0 {
                        assert(p0 =~= p_pick.subrange(0, p0.len() as int));
                    }
                }
            }
            // the composite marker for this editor
            let fresh = match states.get(id) {
                Some(st) => match st {
                    EditorState::Composite => false,
                    EditorState::TextEdit { .. } => true,
                },
                None => true,
            };
            if fresh {
                states.insert(id.dup(), EditorState::Composite);
            }
            proof {
                lemma_frame_st_key(s_pick, *states, id@, id@);
                lemma_frame_trans(s0, s_pick, *states, id@);
            }
            // poll the constructor session
            let ctor_base = id.child(1);
            let ghost s_poll = *states;
            let mut cs = states.ctors(id);
            let ghost s_t1 = *states;
            proof {
                assert(ctors_list_wf(s_poll.ctv(id@)));
                assert(cs@ == s_poll.ctv(id@));
                lemma_frame_ct_key(s_poll, s_t1, id@, id@);
                lemma_frame_trans(s0, s_poll, s_t1, id@);
            }
            let mut c = cs.first();
            proof {
                assert(ctor_wf(c@));
            }
            proof {
                lemma_subtree_refl(ctor_base@);
                lemma_subtree_child(ctor_base@, id@, 1);
                assert forall|k: Seq<u64>| !in_subtree(k, id@) implies !in_subtree(
                    k,
                    ctor_base@,
                ) by {
                    lemma_outside_child(k, id@, 1);
                }
                lemma_parent_not_in_child(id@, 1);
                if quiet(*events, id@) {
                    lemma_quiet_child(*events, id@, 1);
                    lemma_quiet_child(*events, id@.push(1), 0);
                }
            }
            let ghost p_t1 = popups@;
            let polled = c.poll(table, reg, states, events, popups, &ctor_base, fuel);
            let ghost s_t2 = *states;
            proof {
                lemma_prefix_trans(p0, p_t1, popups@);
                lemma_parent_not_in_child(id@, 1);
                assert(s_t2.st(id@) == s_t1.st(id@));
            }
            cs.restore(0, c);
            proof {
                assert(ctor_wf(c@));
                assert forall|j: int| 0 <= j < cs@.len() implies ctor_wf(#[trigger] cs@[j]) by {}
                lemma_frame_sub(s_t1, s_t2, id@, 1);
                lemma_frame_trans(s0, s_t1, s_t2, id@);
            }
            states.put_ctors(id.dup(), cs);
            let ghost s_t3 = *states;
            proof {
                lemma_frame_ct_key(s_t2, s_t3, id@, id@);
                lemma_frame_trans(s0, s_t2, s_t3, id@);
            }
            match polled {
                Some(p) => {
                    let VariantProxy { variant: vn, payload: vp } = p;
                    variant = vn;
                    payload = vp;
                },
                None => {},
            }
            // the active variant's payload, rendered headless
            let pchild = id.child(0);
            proof {
                lemma_subtree_refl(pchild@);
                lemma_subtree_child(pchild@, id@, 0);
                assert forall|k: Seq<u64>| !in_subtree(k, id@) implies !in_subtree(k, pchild@) by {
                    lemma_outside_child(k, id@, 0);
                }
                lemma_parent_not_in_child(id@, 0);
                if quiet(*events, id@) {
                    lemma_quiet_child(*events, id@, 0);
                }
            }
            proof {
                assert(payload@.wf());
            }
            let is_unit_payload = match &payload {
                Payload::Unit => true,
                _ => false,
            };
            if !is_unit_payload {
                let ghost s_t4 = *states;
                if fresh {
                    states.remove(&pchild);
                }
                proof {
                    assert(in_subtree(pchild@, id@)) by {
                        lemma_subtree_refl(pchild@);
                        lemma_subtree_child(pchild@, id@, 0);
                    }
                    lemma_frame_st_key(s_t4, *states, pchild@, id@);
                    lemma_frame_trans(s0, s_t4, *states, id@);
                }
                let ghost s_t5 = *states;
                let ghost p_t5 = popups@;
                match payload {
                    Payload::Unit => {
                        payload = Payload::Unit;
                    },
                    Payload::Tuple(fields) => {
                        proof {
                            assert(fields_wf(fields_view(fields@)));
                            lemma_fields_view(fields@);
                        }
                        if fields.len() < 0xffffffff {
                            let edited = composite_editor(
                                table,
                                reg,
                                fields,
                                states,
                                events,
                                popups,
                                &pchild,
                                true,
                                fuel,
                            );
                            payload = Payload::Tuple(edited);
                            proof {
                                lemma_frame_sub(s_t5, *states, id@, 0);
                                lemma_frame_trans(s0, s_t5, *states, id@);
                                lemma_prefix_trans(p0, p_t5, popups@);
                                lemma_prefix_trans(p_t1, p_t5, popups@);
                                lemma_parent_not_in_child(id@, 0);
                                assert(states.st(id@) == s_t5.st(id@));
                            }
                        } else {
                            payload = Payload::Tuple(fields);
                        }
                    },
                    Payload::Struct(fields) => {
                        proof {
                            assert(fields_wf(fields_view(fields@)));
                            lemma_fields_view(fields@);
                        }
                        if fields.len() < 0xffffffff {
                            let edited = composite_editor(
                                table,
                                reg,
                                fields,
                                states,
                                events,
                                popups,
                                &pchild,
                                true,
                                fuel,
                            );
                            payload = Payload::Struct(edited);
                            proof {
                                lemma_frame_sub(s_t5, *states, id@, 0);
                                lemma_frame_trans(s0, s_t5, *states, id@);
                                lemma_prefix_trans(p0, p_t5, popups@);
                                lemma_prefix_trans(p_t1, p_t5, popups@);
                                lemma_parent_not_in_child(id@, 0);
                                assert(states.st(id@) == s_t5.st(id@));
                            }
                        } else {
                            payload = Payload::Struct(fields);
                        }
                    },
                }
            }
            proof {
                assert(p_t1.is_prefix_of(popups@));
                match v0 {
                    ValV::Enum { type_path: tp0, .. } => {
                        match picked_variant(*reg, tp0, events.ev(id@)) {
                            Some(vs) => {
                                if !(spec_default_variant(*reg, vs, fuel as nat) is Some) {
                                    assert(p_t1 == p0.push(spec_synth_failure_note()));
                                    lemma_prefix_index(p_t1, popups@, p0.len() as int);
                                }
                            },
                            None => {
                                if no_pending_apply(s0.ctv(id@), *events, id@) {
                                    assert(s_poll.ctv(id@) == s0.ctv(id@));
                                    assert(polled is None);
                                }
                            },
                        }
                    },
                    _ => {},
                }
            }
            Value::Enum { type_path, variant, payload }
        },
        other => other,
    }
}

/// The generic reflective editor: inspect the value's shape and route to
/// the matching rendering strategy.
pub fn reflect_editor(
    table: &ReprEditors,
    reg: &TypeRegistry,
    v: Value,
    states: &mut EditorStates,
    events: &Events,
    popups: &mut Popups,
    id: &WidgetId,
    fuel: u64,
) -> (r: Value)
    requires
        old(states).wf(),
        reg.wf(),
        v@.wf(),
        fuel >= 1,
    ensures
        edit_ok(v@, r@, *old(states), *final(states), *events, old(popups)@, final(popups)@, id@),
        v@ matches ValV::Composite { kind: ck, type_path: tp, fields: f0 } ==> (f0.len()
            < 0xffffffff ==> r@ == (ValV::Composite {
            kind: ck,
            type_path: tp,
            fields: r@->Composite_fields,
        }) && composite_fields_ok(*table, f0, r@->Composite_fields, *events, id@, fuel)),
        v@ matches ValV::List { type_path: tp, items: i0 } ==> (i0.len() < 0xffffffff ==> (r@
            matches ValV::List { type_path: tp2, items: i1 } && tp2 == tp && items_edit_ok(
            *table,
            i0,
            i1,
            *events,
            id@,
            fuel,
        ))),
        v@ matches ValV::Array { type_path: tp, items: i0 } ==> (i0.len() < 0xffffffff ==> (r@
            matches ValV::Array { type_path: tp2, items: i1 } && tp2 == tp && items_edit_ok(
            *table,
            i0,
            i1,
            *events,
            id@,
            fuel,
        ))),
        v@ matches ValV::Mapping { type_path: tp, entries: e0 } ==> (e0.len() < 0x7fffffff ==> (r@
            matches ValV::Mapping { type_path: tp2, entries: e1 } && tp2 == tp
            && map_entries_edit_ok(*table, e0, e1, *events, id@, fuel))),
        enum_value_ok(
            *table,
            *reg,
            v@,
            r@,
            old(states).ctv(id@),
            final(states).ctv(id@),
            *events,
            id@,
            fuel,
        ),
        enum_popups_ok(
            *reg,
            v@,
            old(states).ctv(id@),
            *events,
            old(popups)@,
            final(popups)@,
            id@,
            fuel,
        ),
        v@ matches ValV::Enum { type_path: tp, .. } ==> (!(reg.spec_shape_of(tp) matches Some(
            TypeShape::Enum { .. },
        )) ==> *final(states) == *old(states)),
    decreases fuel, 4int,
{
    proof {
        lemma_subtree_refl(id@);
        lemma_fields_view(match v {
            Value::Composite { ref fields, .. } => fields@,
            _ => Seq::empty(),
        });
        lemma_values_view(match v {
            Value::List { ref items, .. } => items@,
            Value::Array { ref items, .. } => items@,
            _ => Seq::empty(),
        });
        lemma_entries_view(match v {
            Value::Mapping { ref entries, .. } => entries@,
            _ => Seq::empty(),
        });
    }
    match v {
        Value::Composite { kind, type_path, fields } => {
            if fields.len() >= 0xffffffff {
                return Value::Composite { kind, type_path, fields };
            }
            let edited = composite_editor(
                table,
                reg,
                fields,
                states,
                events,
                popups,
                id,
                false,
                fuel,
            );
            proof {
                lemma_fields_wf_index(fields_view(edited@));
            }
            Value::Composite { kind, type_path, fields: edited }
        },
        Value::List { type_path, items } => {
            if items.len() >= 0xffffffff {
                return Value::List { type_path, items };
            }
            let edited = list_editor(table, reg, items, states, events, popups, id, fuel);
            Value::List { type_path, items: edited }
        },
        Value::Array { type_path, items } => {
            if items.len() >= 0xffffffff {
                return Value::Array { type_path, items };
            }
            let edited = array_editor(table, reg, items, states, events, popups, id, fuel);
            Value::Array { type_path, items: edited }
        },
        Value::Mapping { type_path, entries } => {
            if entries.len() >= 0x7fffffff {
                return Value::Mapping { type_path, entries };
            }
            let edited = map_editor(table, reg, entries, states, events, popups, id, fuel);
            Value::Mapping { type_path, entries: edited }
        },
        Value::Enum { type_path, variant, payload } => enum_editor(
            table,
            reg,
            Value::Enum { type_path, variant, payload },
            states,
            events,
            popups,
            id,
            fuel,
        ),
        Value::Bool { value } => {
            let kept = Value::Bool { value };
            let _shown = value_editor(&kept);
            kept
        },
        Value::Num { kind, value } => {
            let kept = Value::Num { kind, value };
            let _shown = value_editor(&kept);
            kept
        },
        Value::Text { value } => {
            let kept = Value::Text { value };
            let _shown = value_editor(&kept);
            kept
        },
        Value::Opaque { type_path } => {
            let kept = Value::Opaque { type_path };
            let _shown = value_editor(&kept);
            kept
        },
    }
}

/// Render each captured component of a selection snapshot: one rendering
/// root per slot, each dispatched through the editor table. A value that is
/// not well formed is shown read-only and kept unchanged.
pub fn render_components(
    table: &ReprEditors,
    reg: &TypeRegistry,
    reprs: Vec<(String, Value)>,
    states: &mut EditorStates,
    events: &Events,
    popups: &mut Popups,
    fuel: u64,
) -> (r: Vec<(String, Value)>)
    requires
        old(states).wf(),
        reg.wf(),
    ensures
        final(states).wf(),
        old(popups)@.is_prefix_of(final(popups)@),
        r@.len() == reprs@.len(),
        forall|i: int| 0 <= i < reprs@.len() ==> (#[trigger] r@[i]).0 == reprs@[i].0,
        forall|i: int|
            0 <= i < reprs@.len() ==> (#[trigger] r@[i]).1@.type_path() == reprs@[i].1@.type_path(),
        forall|i: int| 0 <= i < reprs@.len() && reprs@[i].1@.wf() ==> (#[trigger] r@[i]).1@.wf(),
        forall|i: int|
            0 <= i < reprs@.len() && !reprs@[i].1@.wf() ==> (#[trigger] r@[i]).1 == reprs@[i].1,
        forall|i: int|
            0 <= i < reprs@.len() && quiet(*events, seq![i as u64]) ==> (#[trigger] r@[i]).1@
                == reprs@[i].1@,
        forall|i: int|
            0 <= i < reprs@.len() && reprs@[i].1@.wf() ==> rendered_ok(
                *table,
                *reg,
                reprs@[i].1@,
                (#[trigger] r@[i]).1@,
                old(states).ctv(seq![i as u64]),
                final(states).ctv(seq![i as u64]),
                *events,
                seq![i as u64],
                fuel,
            ),
{
    let ghost orig = reprs@;
    let ghost s_init = *old(states);
    let ghost p0 = popups@;
    let mut rest = reprs;
    let mut out: Vec<(String, Value)> = Vec::new();
    let n = rest.len();
    let mut i: usize = 0;
    proof {
        if p0 == popups@ {
            assert(p0 =~= popups@.subrange(0, p0.len() as int));
        }
    }
    while i < n
        invariant
            states.wf(),
            reg.wf(),
            i <= n,
            n == orig.len(),
            n <= usize::MAX,
            rest@ == orig.skip(i as int),
            out@.len() == i,
            s_init == *old(states),
            p0 == old(popups)@,
            p0.is_prefix_of(popups@),
            forall|k: Seq<u64>|
                k.len() >= 1 && k[0] >= i as u64 ==> #[trigger] states.st(k) == s_init.st(k),
            forall|k: Seq<u64>|
                k.len() >= 1 && k[0] >= i as u64 ==> #[trigger] states.ct(k) == s_init.ct(k),
            forall|j: int| 0 <= j < i ==> (#[trigger] out@[j]).0 == orig[j].0,
            forall|j: int|
                0 <= j < i ==> (#[trigger] out@[j]).1@.type_path() == orig[j].1@.type_path(),
            forall|j: int| 0 <= j < i && orig[j].1@.wf() ==> (#[trigger] out@[j]).1@.wf(),
            forall|j: int| 0 <= j < i && !orig[j].1@.wf() ==> (#[trigger] out@[j]).1 == orig[j].1,
            forall|j: int|
                0 <= j < i && quiet(*events, seq![j as u64])
                    ==> (#[trigger] out@[j]).1@ == orig[j].1@,
            forall|j: int|
                0 <= j < i && orig[j].1@.wf() ==> rendered_ok(
                    *table,
                    *reg,
                    orig[j].1@,
                    (#[trigger] out@[j]).1@,
                    s_init.ctv(seq![j as u64]),
                    states.ctv(seq![j as u64]),
                    *events,
                    seq![j as u64],
                    fuel,
                ),
        decreases n - i,
    {
        proof {
            assert(rest@[0] == orig[i as int]);
            assert(rest@.drop_first() =~= orig.skip(i + 1 as int));
        }
        let (name, value) = rest.remove(0);
        let slot = WidgetId::root(i as u64);
        let ghost s_before = *states;
        let ghost p_before = popups@;
        let edited = if value.well_formed() {
            proof {
                assert(s_before.ctv(seq![i as u64]) == s_init.ctv(seq![i as u64])) by {
                    assert(s_before.ct(seq![i as u64]) == s_init.ct(seq![i as u64]));
                }
            }
            dispatch_editor(table, reg, value, states, events, popups, &slot, fuel)
        } else {
            value
        };
        out.push((name, edited));
        proof {
            assert(slot@ == seq![i as u64]);
            lemma_prefix_trans(p0, p_before, popups@);
            assert forall|k: Seq<u64>| k.len() >= 1 && k[0] >= (i + 1) as u64 implies #[trigger]
            states.st(k) == s_init.st(k) && states.ct(k) == s_init.ct(k) by {
                lemma_root_subtree(k, i as u64);
                assert(!in_subtree(k, slot@));
                assert(states.st(k) == s_before.st(k));
                assert(states.ct(k) == s_before.ct(k));
            }
            assert forall|j: int|
                0 <= j < i + 1 && orig[j].1@.wf() implies rendered_ok(
                *table,
                *reg,
                orig[j].1@,
                (#[trigger] out@[j]).1@,
                s_init.ctv(seq![j as u64]),
                states.ctv(seq![j as u64]),
                *events,
                seq![j as u64],
                fuel,
            ) by {
                if j < i {
                    lemma_root_subtree(seq![j as u64], i as u64);
                    assert(!in_subtree(seq![j as u64], slot@));
                    assert(states.ct(seq![j as u64]) == s_before.ct(seq![j as u64]));
                    assert(states.ctv(seq![j as u64]) == s_before.ctv(seq![j as u64]));
                } else {
                    assert(states.ctv(seq![j as u64]) == states.ctv(slot@));
                }
            }
        }
        i += 1;
    }
    out
}

/// Get the editor for a value from the table by its type name and run it:
/// the entry point of the dispatch engine. With no budget left the value is
/// rendered read-only and kept.
pub fn dispatch_editor(
    table: &ReprEditors,
    reg: &TypeRegistry,
    v: Value,
    states: &mut EditorStates,
    events: &Events,
    popups: &mut Popups,
    id: &WidgetId,
    fuel: u64,
) -> (r: Value)
    requires
        old(states).wf(),
        reg.wf(),
        v@.wf(),
    ensures
        edit_ok(v@, r@, *old(states), *final(states), *events, old(popups)@, final(popups)@, id@),
        fuel >= 1 && table.spec_get(v@.type_path()) == EditorKind::Bool ==> (v@ matches ValV::Bool {
            value: prev,
        } ==> r@ == (ValV::Bool { value: spec_bool_after(events.ev(id@), prev) })),
        fuel >= 1 ==> (table.spec_get(v@.type_path()) matches EditorKind::Num(kind) ==> (
        v@ matches ValV::Num { kind: k2, value: prev } ==> (k2 == kind ==> r@ == (ValV::Num {
            kind,
            value: spec_num_after(kind, events.ev(id@), prev),
        }) && (match spec_leaf_state_after(events.ev(id@)) {
            Some(s) => final(states).stv(id@) == Some(s),
            None => final(states).st(id@) is None,
        })))),
        fuel >= 1 && table.spec_get(v@.type_path()) == EditorKind::Text ==> (v@ matches ValV::Text {
            value: prev,
        } ==> r@ == (ValV::Text { value: spec_text_after(events.ev(id@), prev) }) && (
        match spec_leaf_state_after(events.ev(id@)) {
            Some(s) => final(states).stv(id@) == Some(s),
            None => final(states).st(id@) is None,
        })),
        fuel >= 1 && table.spec_get(v@.type_path()) == EditorKind::Reflect ==> (v@
            matches ValV::Composite { kind: ck, type_path: tp, fields: f0 } ==> (f0.len()
            < 0xffffffff ==> r@ == (ValV::Composite {
            kind: ck,
            type_path: tp,
            fields: r@->Composite_fields,
        }) && composite_fields_ok(*table, f0, r@->Composite_fields, *events, id@, fuel))),
        fuel >= 1 && table.spec_get(v@.type_path()) == EditorKind::Reflect ==> (v@
            matches ValV::List { type_path: tp, items: i0 } ==> (i0.len() < 0xffffffff ==> (r@
            matches ValV::List { type_path: tp2, items: i1 } && tp2 == tp && items_edit_ok(
            *table,
            i0,
            i1,
            *events,
            id@,
            fuel,
        )))),
        fuel >= 1 && table.spec_get(v@.type_path()) == EditorKind::Reflect ==> (v@
            matches ValV::Array { type_path: tp, items: i0 } ==> (i0.len() < 0xffffffff ==> (r@
            matches ValV::Array { type_path: tp2, items: i1 } && tp2 == tp && items_edit_ok(
            *table,
            i0,
            i1,
            *events,
            id@,
            fuel,
        )))),
        fuel >= 1 && table.spec_get(v@.type_path()) == EditorKind::Reflect ==> (v@
            matches ValV::Mapping { type_path: tp, entries: e0 } ==> (e0.len() < 0x7fffffff ==> (r@
            matches ValV::Mapping { type_path: tp2, entries: e1 } && tp2 == tp
            && map_entries_edit_ok(*table, e0, e1, *events, id@, fuel)))),
        rendered_ok(
            *table,
            *reg,
            v@,
            r@,
            old(states).ctv(id@),
            final(states).ctv(id@),
            *events,
            id@,
            fuel,
        ),
        fuel >= 1 && table.spec_get(v@.type_path()) == EditorKind::Reflect ==> enum_popups_ok(
            *reg,
            v@,
            old(states).ctv(id@),
            *events,
            old(popups)@,
            final(popups)@,
            id@,
            fuel,
        ),
        fuel >= 1 && table.spec_get(v@.type_path()) == EditorKind::Reflect ==> (v@
            matches ValV::Enum { type_path: tp, .. } ==> (!(reg.spec_shape_of(tp) matches Some(
            TypeShape::Enum { .. },
        )) ==> *final(states) == *old(states))),
    decreases fuel, 5int,
{
    proof {
        lemma_subtree_refl(id@);
    }
    if fuel == 0 {
        return v;
    }
    let kind = table.get(v.type_path());
    match kind {
        EditorKind::Bool => bool_editor(v, events, id),
        EditorKind::Num(k) => num_editor(k, v, states, events, id),
        EditorKind::Text => string_editor(v, states, events, id),
        EditorKind::VariantProxy => {
            // the proxy entry is seeded so the table covers every builtin,
            // but sessions reach the proxy editor directly through `poll`;
            // a value merely named like the proxy has no session behind it
            // and is shown read-only
            let _shown = value_editor(&v);
            v
        },
        EditorKind::Reflect => reflect_editor(table, reg, v, states, events, popups, id, fuel),
    }
}

} // verus!
