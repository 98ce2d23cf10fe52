use spyglass::shell::{search_matches, EntityTracker};
use spyglass::state::{Ctor, Ctors, EditorState, EditorStates, VariantProxy};
use spyglass::value::Payload;
use spyglass::widget::WidgetId;

#[test]
fn store_get_or_creates_then_keeps() {
    let mut states = EditorStates::new();
    let id = WidgetId::root(1);
    assert!(states.get(&id).is_none());
    let st = states.get_or(id.dup(), EditorState::TextEdit { temp_value: "a".to_string() });
    assert_eq!(st, EditorState::TextEdit { temp_value: "a".to_string() });
    // a second call finds the stored state instead of the new default
    let st = states.get_or(id.dup(), EditorState::TextEdit { temp_value: "b".to_string() });
    assert_eq!(st, EditorState::TextEdit { temp_value: "a".to_string() });
}

#[test]
fn store_init_reports_freshness() {
    let mut states = EditorStates::new();
    let id = WidgetId::root(1);
    let (fresh, _) = states.init(id.dup(), EditorState::Composite);
    assert!(fresh);
    let (fresh, _) = states.init(id.dup(), EditorState::Composite);
    assert!(!fresh);
}

#[test]
fn store_insert_and_remove() {
    let mut states = EditorStates::new();
    let id = WidgetId::root(1);
    states.insert(id.dup(), EditorState::Composite);
    assert_eq!(states.remove(&id), Some(EditorState::Composite));
    assert_eq!(states.remove(&id), None);
}

#[test]
fn store_keeps_other_widgets_untouched() {
    let mut states = EditorStates::new();
    let a = WidgetId::root(1);
    let b = WidgetId::root(2);
    states.insert(a.dup(), EditorState::Composite);
    states.insert(b.dup(), EditorState::TextEdit { temp_value: "b".to_string() });
    states.remove(&a);
    assert_eq!(
        states.get(&b),
        Some(&EditorState::TextEdit { temp_value: "b".to_string() })
    );
}

#[test]
fn editor_state_text_edit_reads_buffer() {
    let st = EditorState::TextEdit { temp_value: "buf".to_string() };
    assert_eq!(st.text_edit().as_str(), "buf");
    EditorState::Composite.composite();
}

#[test]
fn ctor_start_marks_fresh() {
    let mut c = Ctor::default();
    assert!(c.value.is_none());
    c.start(VariantProxy { variant: "Square".to_string(), payload: Payload::Unit });
    assert!(c.fresh);
    assert_eq!(c.value.as_ref().unwrap().variant.as_str(), "Square");
}

#[test]
fn ctors_nth_grows_with_idle_sessions() {
    let mut cs = Ctors::default();
    let c = cs.nth(2);
    assert!(c.value.is_none());
    assert_eq!(cs.ctors.len(), 3);
    let mut c = cs.first();
    c.start(VariantProxy { variant: "V".to_string(), payload: Payload::Unit });
    cs.restore(0, c);
    assert_eq!(cs.ctors[0].value.as_ref().unwrap().variant.as_str(), "V");
    assert!(cs.ctors[1].value.is_none());
}

#[test]
fn store_ctors_take_and_put_back() {
    let mut states = EditorStates::new();
    let id = WidgetId::root(1);
    let mut cs = states.ctors(&id);
    assert_eq!(cs.ctors.len(), 0);
    let mut c = cs.first();
    c.start(VariantProxy { variant: "V".to_string(), payload: Payload::Unit });
    cs.restore(0, c);
    states.put_ctors(id.dup(), cs);
    let cs = states.ctors(&id);
    assert_eq!(cs.ctors.len(), 1);
    assert_eq!(cs.ctors[0].value.as_ref().unwrap().variant.as_str(), "V");
}

#[test]
fn tracker_tracks_and_untracks() {
    let mut tracker = EntityTracker::new();
    tracker.track(3);
    tracker.track(5);
    tracker.track(3);
    assert_eq!(tracker.entries.len(), 2);
    tracker.untrack(3);
    assert_eq!(tracker.entries, vec![5]);
    tracker.untrack(99);
    assert_eq!(tracker.entries, vec![5]);
}

#[test]
fn search_matches_by_prefix() {
    assert!(search_matches("Player", ""));
    assert!(search_matches("Player", "Pla"));
    assert!(search_matches("Player", "Player"));
    assert!(!search_matches("Player", "Players"));
    assert!(!search_matches("Player", "pla"));
}
