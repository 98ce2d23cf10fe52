//! Transient per-widget editor state, kept across frames keyed by widget
//! identity: in-progress text buffers, composite markers, and the
//! constructor sessions that build new enum variant values.

use vstd::prelude::*;
use crate::value::Payload;
use crate::value::PayloadV;
use crate::widget::WidgetId;
use crate::widget::wassoc_find;
use crate::widget::wassoc_get;
use crate::widget::wassoc_remove;
use crate::widget::wassoc_set;
use crate::widget::wdistinct_keys;

verus! {

/// The state of one editor: a text buffer while a leaf field is being
/// typed into, or a marker for a composite editor.
#[derive(Debug, PartialEq, Eq)]
pub enum EditorState {
    /// Persistent state for a text editor, so incomplete text is not
    /// applied immediately.
    TextEdit { temp_value: String },
    /// Persistent state for composite editors.
    Composite,
}

/// The view of an editor state.
pub enum EditorStateV {
    TextEdit { temp_value: Seq<char> },
    Composite,
}

impl View for EditorState {
    type V = EditorStateV;

    open spec fn view(&self) -> EditorStateV {
        match self {
            EditorState::TextEdit { temp_value } => EditorStateV::TextEdit {
                temp_value: temp_value@,
            },
            EditorState::Composite => EditorStateV::Composite,
        }
    }
}

impl EditorState {
    /// The text buffer of a text-editing state.
    pub fn text_edit(&self) -> (r: &String)
        requires
            self@ is TextEdit,
        ensures
            r@ == self@->temp_value,
    {
        match self {
            EditorState::TextEdit { temp_value } => temp_value,
            EditorState::Composite => unreached(),
        }
    }

    /// Checks that the state is the composite marker.
    pub fn composite(&self)
        requires
            self@ is Composite,
    {
    }

    /// An independently owned copy with the same view.
    pub fn duplicate(&self) -> (r: EditorState)
        ensures
            r@ == self@,
    {
        match self {
            EditorState::TextEdit { temp_value } => EditorState::TextEdit {
                temp_value: temp_value.clone(),
            },
            EditorState::Composite => EditorState::Composite,
        }
    }
}

/// A value of a new enum variant under construction: the variant name and
/// the partially edited payload.
#[derive(Debug, PartialEq, Eq)]
pub struct VariantProxy {
    pub variant: String,
    pub payload: Payload,
}

/// The view of a variant under construction.
pub struct ProxyV {
    pub variant: Seq<char>,
    pub payload: PayloadV,
}

impl View for VariantProxy {
    type V = ProxyV;

    open spec fn view(&self) -> ProxyV {
        ProxyV { variant: self.variant@, payload: self.payload@ }
    }
}

/// A constructor session: a window in which a value of a given type is
/// built, for example when a new enum variant is chosen.
#[derive(Debug, PartialEq, Eq)]
pub struct Ctor {
    pub value: Option<VariantProxy>,
    pub fresh: bool,
}

/// The view of a constructor session.
pub struct CtorV {
    pub value: Option<ProxyV>,
    pub fresh: bool,
}

impl View for Ctor {
    type V = CtorV;

    open spec fn view(&self) -> CtorV {
        CtorV {
            value: match self.value {
                Some(p) => Some(p@),
                None => None,
            },
            fresh: self.fresh,
        }
    }
}

impl Default for Ctor {
    /// An idle session.
    fn default() -> (r: Ctor)
        ensures
            r@.value is None,
            !r@.fresh,
    {
        Ctor { value: None, fresh: false }
    }
}

impl Ctor {
    /// Start a constructor, setting its value and marking it as fresh.
    pub fn start(&mut self, value: VariantProxy)
        ensures
            final(self)@.value == Some(value@),
            final(self)@.fresh,
    {
        self.value = Some(value);
        self.fresh = true;
    }
}

/// The view of a session list.
pub open spec fn ctors_view(s: Seq<Ctor>) -> Seq<CtorV>
    decreases s,
{
    if s.len() == 0 {
        Seq::empty()
    } else {
        seq![s[0]@] + ctors_view(s.drop_first())
    }
}

pub proof fn lemma_ctors_view(s: Seq<Ctor>)
    ensures
        ctors_view(s).len() == s.len(),
        forall|i: int| 0 <= i < s.len() ==> ctors_view(s)[i] == s[i]@,
    decreases s,
{
    if s.len() > 0 {
        lemma_ctors_view(s.drop_first());
        assert(ctors_view(s) == seq![s[0]@] + ctors_view(s.drop_first()));
        assert forall|i: int| 0 <= i < s.len() implies ctors_view(s)[i] == s[i]@ by {
            if i > 0 {
                assert(ctors_view(s)[i] == ctors_view(s.drop_first())[i - 1]);
                assert(s.drop_first()[i - 1] == s[i]);
            }
        }
    }
}

/// The list of constructor sessions of one widget, indexed by position;
/// default usage is position zero.
#[derive(Debug, PartialEq, Eq)]
pub struct Ctors {
    pub ctors: Vec<Ctor>,
}

impl View for Ctors {
    type V = Seq<CtorV>;

    open spec fn view(&self) -> Seq<CtorV> {
        ctors_view(self.ctors@)
    }
}

impl Default for Ctors {
    /// No sessions yet.
    fn default() -> (r: Ctors)
        ensures
            r@ == Seq::<CtorV>::empty(),
    {
        Ctors { ctors: Vec::new() }
    }
}

impl Ctors {
    /// Take the nth constructor out for use, growing the list with idle
    /// sessions as needed; restore it with `restore`. It is up to the
    /// caller to keep track of which session is which.
    pub fn nth(&mut self, n: usize) -> (c: Ctor)
        requires
            n < 0xffffffff,
        ensures
            final(self)@.len() == if old(self)@.len() > n {
                old(self)@.len() as int
            } else {
                n + 1
            },
            n < final(self)@.len(),
            forall|j: int| 0 <= j < old(self)@.len() && j != n ==> final(self)@[j] == old(self)@[j],
            forall|j: int|
                old(self)@.len() <= j < final(self)@.len() ==> final(self)@[j] == (Ctor {
                    value: None,
                    fresh: false,
                })@,
            c@ == if n < old(self)@.len() {
                old(self)@[n as int]
            } else {
                (Ctor { value: None, fresh: false })@
            },
            final(self)@[n as int] == (Ctor { value: None, fresh: false })@,
    {
        proof {
            lemma_ctors_view(self.ctors@);
        }
        while self.ctors.len() <= n
            invariant
                n < 0xffffffff,
                ctors_view(old(self).ctors@).len() == old(self).ctors@.len(),
                forall|j: int|
                    0 <= j < old(self).ctors@.len() ==> self.ctors@[j] == old(self).ctors@[j],
                self.ctors@.len() >= old(self).ctors@.len(),
                forall|j: int|
                    old(self).ctors@.len() <= j < self.ctors@.len() ==> self.ctors@[j] == (Ctor {
                        value: None,
                        fresh: false,
                    }),
                old(self).ctors@.len() <= n ==> self.ctors@.len() <= n + 1,
                old(self).ctors@.len() > n ==> self.ctors@.len() == old(self).ctors@.len(),
            decreases n + 1 - self.ctors@.len(),
        {
            self.ctors.push(Ctor::default());
        }
        let c = self.ctors.remove(n);
        self.ctors.insert(n, Ctor::default());
        proof {
            lemma_ctors_view(self.ctors@);
            lemma_ctors_view(old(self).ctors@);
        }
        c
    }

    /// Get the first constructor, as a shorthand.
    pub fn first(&mut self) -> (c: Ctor)
        ensures
            final(self)@.len() == if old(self)@.len() > 0 {
                old(self)@.len() as int
            } else {
                1
            },
            0 < final(self)@.len(),
            forall|j: int| 1 <= j < old(self)@.len() ==> final(self)@[j] == old(self)@[j],
            forall|j: int|
                old(self)@.len() <= j < final(self)@.len() ==> final(self)@[j] == (Ctor {
                    value: None,
                    fresh: false,
                })@,
            c@ == if 0 < old(self)@.len() {
                old(self)@[0]
            } else {
                (Ctor { value: None, fresh: false })@
            },
            final(self)@[0] == (Ctor { value: None, fresh: false })@,
    {
        self.nth(0)
    }

    /// Put a constructor back at position `n` after use.
    pub fn restore(&mut self, n: usize, c: Ctor)
        requires
            n < old(self)@.len(),
        ensures
            final(self)@ == old(self)@.update(n as int, c@),
    {
        proof {
            lemma_ctors_view(self.ctors@);
        }
        self.ctors.set(n, c);
        proof {
            lemma_ctors_view(self.ctors@);
            assert(ctors_view(self.ctors@) =~= ctors_view(old(self).ctors@).update(n as int, c@));
        }
    }
}

/// A session under construction holds only well-formed values.
pub open spec fn ctor_wf(c: CtorV) -> bool {
    match c.value {
        Some(p) => p.payload.wf(),
        None => true,
    }
}

/// Every session of a list holds only well-formed values.
pub open spec fn ctors_list_wf(s: Seq<CtorV>) -> bool {
    forall|i: int| 0 <= i < s.len() ==> ctor_wf(#[trigger] s[i])
}

/// The store of per-widget editor state: `EditorState` entries and
/// constructor-session lists, each keyed by widget identity.
pub struct EditorStates {
    pub state: Vec<(WidgetId, EditorState)>,
    pub ctor_lists: Vec<(WidgetId, Ctors)>,
}

impl EditorStates {
    /// Each widget has at most one entry in each store, and every stored
    /// session holds only well-formed values.
    pub open spec fn wf(self) -> bool {
        &&& wdistinct_keys(self.state@)
        &&& wdistinct_keys(self.ctor_lists@)
        &&& forall|k: Seq<u64>| ctors_list_wf(#[trigger] self.ctv(k))
    }

    /// The editor state of a widget.
    pub open spec fn st(self, k: Seq<u64>) -> Option<EditorState> {
        wassoc_get(self.state@, k)
    }

    /// The view of the editor state of a widget.
    pub open spec fn stv(self, k: Seq<u64>) -> Option<EditorStateV> {
        match self.st(k) {
            Some(s) => Some(s@),
            None => None,
        }
    }

    /// The constructor sessions of a widget.
    pub open spec fn ct(self, k: Seq<u64>) -> Option<Ctors> {
        wassoc_get(self.ctor_lists@, k)
    }

    /// The view of the constructor sessions of a widget.
    pub open spec fn ctv(self, k: Seq<u64>) -> Seq<CtorV> {
        match self.ct(k) {
            Some(c) => c@,
            None => Seq::empty(),
        }
    }

    /// An empty store.
    pub fn new() -> (r: EditorStates)
        ensures
            r.wf(),
            forall|k: Seq<u64>| r.st(k) is None,
            forall|k: Seq<u64>| r.ct(k) is None,
    {
        let r = EditorStates { state: Vec::new(), ctor_lists: Vec::new() };
        proof {
            assert forall|k: Seq<u64>| r.st(k) is None && r.ct(k) is None by {
                assert(r.state@.len() == 0);
                assert(r.ctor_lists@.len() == 0);
            }
        }
        r
    }

    /// The editor state stored for a widget, if any.
    pub fn get(&self, id: &WidgetId) -> (r: Option<&EditorState>)
        ensures
            match r {
                Some(s) => self.st(id@) == Some(*s),
                None => self.st(id@) is None,
            },
    {
        wassoc_find(&self.state, id)
    }

    /// The editor state of a widget, creating it from `default` when the
    /// widget has none yet. Returns a copy of the stored state.
    pub fn get_or(&mut self, id: WidgetId, default: EditorState) -> (r: EditorState)
        requires
            old(self).wf(),
        ensures
            final(self).wf(),
            final(self).ctor_lists == old(self).ctor_lists,
            final(self).stv(id@) == Some(r@),
            r@ == match old(self).stv(id@) {
                Some(s) => s,
                None => default@,
            },
            forall|k: Seq<u64>| k != id@ ==> final(self).st(k) == old(self).st(k),
            old(self).st(id@) is Some ==> final(self).st(id@) == old(self).st(id@),
    {
        let found = wassoc_find(&self.state, &id);
        let r = match found {
            Some(s) => s.duplicate(),
            None => {
                let r = default.duplicate();
                wassoc_set(&mut self.state, id, default);
                r
            },
        };
        proof {
            assert forall|k: Seq<u64>| ctors_list_wf(#[trigger] self.ctv(k)) by {
                assert(self.ctv(k) == old(self).ctv(k));
                assert(ctors_list_wf(old(self).ctv(k)));
            }
        }
        r
    }

    /// Like `get_or`, but also reports whether the state had to be created
    /// (freshness).
    pub fn init(&mut self, id: WidgetId, default: EditorState) -> (r: (bool, EditorState))
        requires
            old(self).wf(),
        ensures
            final(self).wf(),
            final(self).ctor_lists == old(self).ctor_lists,
            r.0 == (old(self).st(id@) is None),
            final(self).stv(id@) == Some(r.1@),
            r.1@ == match old(self).stv(id@) {
                Some(s) => s,
                None => default@,
            },
            forall|k: Seq<u64>| k != id@ ==> final(self).st(k) == old(self).st(k),
            old(self).st(id@) is Some ==> final(self).st(id@) == old(self).st(id@),
    {
        let fresh = match wassoc_find(&self.state, &id) {
            Some(_) => false,
            None => true,
        };
        let st = self.get_or(id, default);
        (fresh, st)
    }

    /// Insert a new state for a widget.
    pub fn insert(&mut self, id: WidgetId, state: EditorState)
        requires
            old(self).wf(),
        ensures
            final(self).wf(),
            final(self).ctor_lists == old(self).ctor_lists,
            final(self).st(id@) == Some(state),
            forall|k: Seq<u64>| k != id@ ==> final(self).st(k) == old(self).st(k),
    {
        let ghost key = id@;
        wassoc_set(&mut self.state, id, state);
        proof {
            assert forall|k: Seq<u64>| ctors_list_wf(#[trigger] self.ctv(k)) by {
                assert(self.ctv(k) == old(self).ctv(k));
                assert(ctors_list_wf(old(self).ctv(k)));
            }
        }
    }

    /// Remove the state of a widget.
    pub fn remove(&mut self, id: &WidgetId) -> (r: Option<EditorState>)
        requires
            old(self).wf(),
        ensures
            final(self).wf(),
            final(self).ctor_lists == old(self).ctor_lists,
            r == old(self).st(id@),
            final(self).st(id@) is None,
            forall|k: Seq<u64>| k != id@ ==> final(self).st(k) == old(self).st(k),
    {
        let r = wassoc_remove(&mut self.state, id);
        proof {
            assert forall|k: Seq<u64>| ctors_list_wf(#[trigger] self.ctv(k)) by {
                assert(self.ctv(k) == old(self).ctv(k));
                assert(ctors_list_wf(old(self).ctv(k)));
            }
        }
        r
    }

    /// Take the constructor sessions of a widget out for use; put them back
    /// with `put_ctors`. Taking keeps state and sessions of other widgets
    /// untouched.
    pub fn ctors(&mut self, id: &WidgetId) -> (r: Ctors)
        requires
            old(self).wf(),
        ensures
            final(self).wf(),
            final(self).state == old(self).state,
            r@ == old(self).ctv(id@),
            final(self).ct(id@) is None,
            forall|k: Seq<u64>| k != id@ ==> final(self).ct(k) == old(self).ct(k),
    {
        let r = match wassoc_remove(&mut self.ctor_lists, id) {
            Some(c) => c,
            None => Ctors { ctors: Vec::new() },
        };
        proof {
            assert forall|k: Seq<u64>| ctors_list_wf(#[trigger] self.ctv(k)) by {
                if k == id@ {
                    assert(self.ct(k) is None);
                } else {
                    assert(self.ctv(k) == old(self).ctv(k));
                    assert(ctors_list_wf(old(self).ctv(k)));
                }
            }
        }
        r
    }

    /// Put the constructor sessions of a widget back after use.
    pub fn put_ctors(&mut self, id: WidgetId, c: Ctors)
        requires
            old(self).wf(),
            ctors_list_wf(c@),
        ensures
            final(self).wf(),
            final(self).state == old(self).state,
            final(self).ctv(id@) == c@,
            final(self).ct(id@) == Some(c),
            forall|k: Seq<u64>| k != id@ ==> final(self).ct(k) == old(self).ct(k),
    {
        let ghost key = id@;
        let ghost cv = c@;
        wassoc_set(&mut self.ctor_lists, id, c);
        proof {
            assert forall|k: Seq<u64>| ctors_list_wf(#[trigger] self.ctv(k)) by {
                if k == key {
                    assert(self.ctv(k) == cv);
                } else {
                    assert(self.ctv(k) == old(self).ctv(k));
                    assert(ctors_list_wf(old(self).ctv(k)));
                }
            }
        }
    }
}

} // verus!
