//! The inspector shell's own decisions: which tab is selected. Clicking a
//! tab's label toggles it; a selection pointing past the end of the tab
//! list falls back to no selection.

use vstd::prelude::*;
use vstd::string::StrSliceExecFns;

verus! {

/// The set of entities the inspector lists, kept as the host reports
/// entities appearing and disappearing.
pub struct EntityTracker {
    pub entries: Vec<u64>,
}

impl EntityTracker {
    /// Each entity is listed at most once.
    pub open spec fn wf(self) -> bool {
        forall|i: int, j: int|
            0 <= i < j < self.entries@.len() ==> self.entries@[i] != self.entries@[j]
    }

    /// Nothing tracked yet.
    pub fn new() -> (r: EntityTracker)
        ensures
            r.wf(),
            r.entries@.len() == 0,
    {
        EntityTracker { entries: Vec::new() }
    }

    /// Start tracking an entity the host reported.
    pub fn track(&mut self, id: u64)
        requires
            old(self).wf(),
        ensures
            final(self).wf(),
            forall|x: u64|
                final(self).entries@.contains(x) <==> old(self).entries@.contains(x) || x == id,
    {
        let mut i: usize = 0;
        while i < self.entries.len()
            invariant
                self.entries@ == old(self).entries@,
                old(self).wf(),
                i <= self.entries@.len(),
                forall|j: int| 0 <= j < i ==> self.entries@[j] != id,
            decreases self.entries@.len() - i,
        {
            if self.entries[i] == id {
                proof {
                    assert(forall|x: u64|
                        self.entries@.contains(x) <==> self.entries@.contains(x) || x == id);
                }
                return ;
            }
            i += 1;
        }
        self.entries.push(id);
        proof {
            assert(self.entries@.last() == id);
            assert forall|x: u64|
                self.entries@.contains(x) <==> old(self).entries@.contains(x) || x == id by {
                if old(self).entries@.contains(x) {
                    let w = choose|w: int|
                        0 <= w < old(self).entries@.len() && old(self).entries@[w] == x;
                    assert(self.entries@[w] == x);
                }
                if self.entries@.contains(x) {
                    let w = choose|w: int| 0 <= w < self.entries@.len() && self.entries@[w] == x;
                    if w < old(self).entries@.len() {
                        assert(old(self).entries@[w] == x);
                    }
                }
            }
        }
    }

    /// Stop tracking an entity the host removed.
    pub fn untrack(&mut self, id: u64)
        requires
            old(self).wf(),
        ensures
            final(self).wf(),
            forall|x: u64|
                final(self).entries@.contains(x) <==> old(self).entries@.contains(x) && x != id,
    {
        let ghost orig = self.entries@;
        let mut i: usize = 0;
        while i < self.entries.len()
            invariant
                self.entries@ == orig,
                old(self).entries@ == orig,
                forall|a: int, b: int| 0 <= a < b < orig.len() ==> orig[a] != orig[b],
                i <= orig.len(),
                forall|j: int| 0 <= j < i ==> orig[j] != id,
            decreases orig.len() - i,
        {
            if self.entries[i] == id {
                self.entries.remove(i);
                proof {
                    assert(self.entries@ == orig.remove(i as int));
                    assert forall|x: u64|
                        self.entries@.contains(x) <==> orig.contains(x) && x != id by {
                        if self.entries@.contains(x) {
                            let w = choose|w: int|
                                0 <= w < self.entries@.len() && self.entries@[w] == x;
                            if w < i {
                                assert(orig[w] == x);
                            } else {
                                assert(orig[w + 1] == x);
                            }
                        }
                        if orig.contains(x) && x != id {
                            let w = choose|w: int| 0 <= w < orig.len() && orig[w] == x;
                            if w < i {
                                assert(self.entries@[w] == x);
                            } else {
                                assert(orig[i as int] == id);
                                assert(w != i);
                                assert(self.entries@[w - 1] == x);
                            }
                        }
                    }
                }
                return ;
            }
            i += 1;
        }
        proof {
            assert(forall|j: int| 0 <= j < orig.len() ==> orig[j] != id);
            assert forall|x: u64| self.entries@.contains(x) <==> orig.contains(x) && x != id by {
                if orig.contains(x) {
                    let w = choose|w: int| 0 <= w < orig.len() && orig[w] == x;
                }
            }
        }
    }
}

/// Whether an entity's display name matches the search text: the search is
/// a prefix of the name.
pub fn search_matches(name: &str, query: &str) -> (r: bool)
    ensures
        r == query@.is_prefix_of(name@),
{
    let qn: usize = query.unicode_len();
    let nn: usize = name.unicode_len();
    if qn > nn {
        return false;
    }
    let mut i: usize = 0;
    while i < qn
        invariant
            i <= qn,
            qn == query@.len(),
            nn == name@.len(),
            qn <= nn,
            forall|j: int| 0 <= j < i ==> query@[j] == name@[j],
        decreases qn - i,
    {
        if query.get_char(i) != name.get_char(i) {
            proof {
                assert(name@.subrange(0, qn as int)[i as int] == name@[i as int]);
            }
            return false;
        }
        i += 1;
    }
    proof {
        assert(query@ =~= name@.subrange(0, qn as int));
    }
    true
}

/// The inspector's tab state: the ordered tab names, and the index of the
/// selected tab, if any. Both may be altered at any time.
pub struct Spyglass {
    pub tabs: Vec<String>,
    pub selected: Option<usize>,
}

impl Spyglass {
    /// An inspector with no tabs and nothing selected.
    pub fn new() -> (r: Spyglass)
        ensures
            r.tabs@.len() == 0,
            r.selected is None,
    {
        Spyglass { tabs: Vec::new(), selected: None }
    }

    /// Clicking a tab's label selects it, and deselects it when it was
    /// already the selection.
    pub fn toggle_tab(&mut self, clicked: usize)
        ensures
            final(self).tabs == old(self).tabs,
            final(self).selected == if old(self).selected == Some(clicked) {
                None::<usize>
            } else {
                Some(clicked)
            },
    {
        let same = match self.selected {
            Some(i) => i == clicked,
            None => false,
        };
        self.selected = if same {
            None
        } else {
            Some(clicked)
        };
    }

    /// A selection pointing past the end of the tab list is dropped; a
    /// valid one is kept.
    pub fn resolve_selection(&mut self)
        ensures
            final(self).tabs == old(self).tabs,
            final(self).selected == match old(self).selected {
                Some(i) => if i < old(self).tabs@.len() {
                    Some(i)
                } else {
                    None::<usize>
                },
                None => None::<usize>,
            },
    {
        let keep = match self.selected {
            Some(i) => i < self.tabs.len(),
            None => false,
        };
        if !keep {
            self.selected = None;
        }
    }

    /// The name of the selected tab, when a valid tab is selected.
    pub fn selected_name(&self) -> (r: Option<&String>)
        ensures
            match self.selected {
                Some(i) => if i < self.tabs@.len() {
                    r matches Some(name) && *name == self.tabs@[i as int]
                } else {
                    r is None
                },
                None => r is None,
            },
    {
        match self.selected {
            Some(i) => {
                if i < self.tabs.len() {
                    Some(&self.tabs[i])
                } else {
                    None
                }
            },
            None => None,
        }
    }
}

} // verus!
