//! Stable per-widget identities. An identity is the path of local
//! discriminants from the root of the rendering tree down to the widget, so
//! the same logical widget keeps the same identity across frames as long as
//! the tree shape is unchanged, and siblings can never collide.

use vstd::prelude::*;

verus! {

/// The identity of a widget: the discriminant path from the rendering root.
pub struct WidgetId {
    pub path: Vec<u64>,
}

impl View for WidgetId {
    type V = Seq<u64>;

    open spec fn view(&self) -> Seq<u64> {
        self.path@
    }
}

impl WidgetId {
    /// The identity of a rendering root.
    pub fn root(tag: u64) -> (r: WidgetId)
        ensures
            r@ == seq![tag],
    {
        let mut path: Vec<u64> = Vec::new();
        path.push(tag);
        let r = WidgetId { path };
        proof {
            assert(r@ =~= seq![tag]);
        }
        r
    }

    /// The identity of the child with local discriminant `d`.
    pub fn child(&self, d: u64) -> (r: WidgetId)
        ensures
            r@ == self@.push(d),
    {
        let mut path: Vec<u64> = Vec::new();
        let mut i: usize = 0;
        while i < self.path.len()
            invariant
                i <= self.path@.len(),
                path@ == self.path@.take(i as int),
            decreases self.path@.len() - i,
        {
            path.push(self.path[i]);
            proof {
                assert(path@ =~= self.path@.take(i + 1 as int));
            }
            i += 1;
        }
        proof {
            assert(path@ =~= self.path@);
        }
        path.push(d);
        WidgetId { path }
    }

    /// An independently owned copy of the identity.
    pub fn dup(&self) -> (r: WidgetId)
        ensures
            r@ == self@,
    {
        let mut path: Vec<u64> = Vec::new();
        let mut i: usize = 0;
        while i < self.path.len()
            invariant
                i <= self.path@.len(),
                path@ == self.path@.take(i as int),
            decreases self.path@.len() - i,
        {
            path.push(self.path[i]);
            proof {
                assert(path@ =~= self.path@.take(i + 1 as int));
            }
            i += 1;
        }
        proof {
            assert(path@ =~= self.path@);
        }
        WidgetId { path }
    }

    /// Whether two identities name the same widget.
    pub fn same(&self, other: &WidgetId) -> (r: bool)
        ensures
            r == (self@ == other@),
    {
        if self.path.len() != other.path.len() {
            return false;
        }
        let mut i: usize = 0;
        while i < self.path.len()
            invariant
                i <= self.path@.len(),
                self.path@.len() == other.path@.len(),
                forall|j: int| 0 <= j < i ==> self.path@[j] == other.path@[j],
            decreases self.path@.len() - i,
        {
            if self.path[i] != other.path[i] {
                return false;
            }
            i += 1;
        }
        proof {
            assert(self@ =~= other@);
        }
        true
    }
}

/// `k` lies in the rendering subtree rooted at `base`.
pub open spec fn in_subtree(k: Seq<u64>, base: Seq<u64>) -> bool {
    base.is_prefix_of(k)
}

/// Every subtree contains its own root.
pub proof fn lemma_subtree_refl(base: Seq<u64>)
    ensures
        in_subtree(base, base),
{
    assert(base.take(base.len() as int) =~= base);
}

/// A child's subtree lies within its parent's.
pub proof fn lemma_subtree_child(k: Seq<u64>, base: Seq<u64>, d: u64)
    requires
        in_subtree(k, base.push(d)),
    ensures
        in_subtree(k, base),
{
    assert(k.take(base.len() as int) =~= k.take((base.len() + 1) as int).take(base.len() as int));
    assert(base =~= base.push(d).take(base.len() as int));
}

/// Subtrees of distinct siblings are disjoint.
pub proof fn lemma_sibling_subtrees_disjoint(k: Seq<u64>, base: Seq<u64>, d1: u64, d2: u64)
    requires
        d1 != d2,
        in_subtree(k, base.push(d1)),
    ensures
        !in_subtree(k, base.push(d2)),
{
    let l = base.len() as int;
    assert(base.push(d1) == k.subrange(0, l + 1));
    assert(base.push(d1)[l] == d1);
    assert(k.subrange(0, l + 1)[l] == k[l]);
    if in_subtree(k, base.push(d2)) {
        assert(base.push(d2) == k.subrange(0, l + 1));
        assert(base.push(d2)[l] == d2);
    }
}

/// Lookup of the first entry with widget key `k`.
pub open spec fn wassoc_get<V>(s: Seq<(WidgetId, V)>, k: Seq<u64>) -> Option<V>
    decreases s.len(),
{
    if s.len() == 0 {
        None
    } else if s[0].0@ == k {
        Some(s[0].1)
    } else {
        wassoc_get(s.drop_first(), k)
    }
}

/// No entry carries widget key `k`.
pub open spec fn wassoc_free<V>(s: Seq<(WidgetId, V)>, k: Seq<u64>) -> bool {
    forall|i: int| 0 <= i < s.len() ==> s[i].0@ != k
}

/// All widget keys are distinct, as in a map.
pub open spec fn wdistinct_keys<V>(s: Seq<(WidgetId, V)>) -> bool {
    forall|i: int, j: int| 0 <= i < j < s.len() ==> s[i].0@ != s[j].0@
}

pub proof fn lemma_wassoc_get_free<V>(s: Seq<(WidgetId, V)>, k: Seq<u64>)
    requires
        wassoc_free(s, k),
    ensures
        wassoc_get(s, k) is None,
    decreases s.len(),
{
    if s.len() > 0 {
        assert(wassoc_free(s.drop_first(), k));
        lemma_wassoc_get_free(s.drop_first(), k);
    }
}

pub proof fn lemma_wassoc_get_index<V>(s: Seq<(WidgetId, V)>, i: int)
    requires
        wdistinct_keys(s),
        0 <= i < s.len(),
    ensures
        wassoc_get(s, s[i].0@) == Some(s[i].1),
    decreases s.len(),
{
    if i > 0 {
        assert(wdistinct_keys(s.drop_first()));
        lemma_wassoc_get_index(s.drop_first(), i - 1);
    }
}

pub proof fn lemma_wassoc_get_update<V>(s: Seq<(WidgetId, V)>, i: int, name: WidgetId, v: V, k: Seq<u64>)
    requires
        wdistinct_keys(s),
        0 <= i < s.len(),
        name@ == s[i].0@,
    ensures
        wassoc_get(s.update(i, (name, v)), k) == if k == s[i].0@ {
            Some(v)
        } else {
            wassoc_get(s, k)
        },
        wdistinct_keys(s.update(i, (name, v))),
    decreases s.len(),
{
    let t = s.update(i, (name, v));
    assert(forall|j: int| 0 <= j < s.len() ==> t[j].0@ == s[j].0@);
    if i == 0 {
        assert(t.drop_first() =~= s.drop_first());
    } else {
        assert(t[0] == s[0]);
        assert(t.drop_first() =~= s.drop_first().update(i - 1, (name, v)));
        assert(wdistinct_keys(s.drop_first()));
        assert(s.drop_first()[i - 1] == s[i]);
        lemma_wassoc_get_update(s.drop_first(), i - 1, name, v, k);
    }
}

pub proof fn lemma_wassoc_get_push<V>(s: Seq<(WidgetId, V)>, name: WidgetId, v: V, k: Seq<u64>)
    requires
        wassoc_free(s, name@),
    ensures
        wassoc_get(s.push((name, v)), k) == if k == name@ {
            Some(v)
        } else {
            wassoc_get(s, k)
        },
    decreases s.len(),
{
    let t = s.push((name, v));
    if s.len() == 0 {
        assert(t.drop_first() =~= Seq::<(WidgetId, V)>::empty());
    } else {
        assert(t[0] == s[0]);
        assert(t.drop_first() =~= s.drop_first().push((name, v)));
        assert(wassoc_free(s.drop_first(), name@));
        lemma_wassoc_get_push(s.drop_first(), name, v, k);
    }
}

pub proof fn lemma_wassoc_get_remove<V>(s: Seq<(WidgetId, V)>, i: int, k: Seq<u64>)
    requires
        wdistinct_keys(s),
        0 <= i < s.len(),
    ensures
        wassoc_get(s.remove(i), k) == if k == s[i].0@ {
            None::<V>
        } else {
            wassoc_get(s, k)
        },
        wdistinct_keys(s.remove(i)),
    decreases s.len(),
{
    let t = s.remove(i);
    assert(wdistinct_keys(t));
    if i == 0 {
        assert(t =~= s.drop_first());
        if k == s[0].0@ {
            assert(wassoc_free(s.drop_first(), k));
            lemma_wassoc_get_free(s.drop_first(), k);
        }
    } else {
        assert(t[0] == s[0]);
        assert(t.drop_first() =~= s.drop_first().remove(i - 1));
        assert(wdistinct_keys(s.drop_first()));
        assert(s.drop_first()[i - 1] == s[i]);
        lemma_wassoc_get_remove(s.drop_first(), i - 1, k);
    }
}

/// Find the entry with widget key `id`.
pub fn wassoc_find<'a, V>(entries: &'a Vec<(WidgetId, V)>, id: &WidgetId) -> (r: Option<&'a V>)
    ensures
        match r {
            Some(v) => wassoc_get(entries@, id@) == Some(*v),
            None => wassoc_get(entries@, id@) is None,
        },
{
    proof {
        assert(entries@.skip(0) =~= entries@);
    }
    let mut i: usize = 0;
    while i < entries.len()
        invariant
            i <= entries@.len(),
            wassoc_get(entries@, id@) == wassoc_get(entries@.skip(i as int), id@),
        decreases entries@.len() - i,
    {
        proof {
            assert(entries@.skip(i as int)[0] == entries@[i as int]);
            assert(entries@.skip(i as int).drop_first() =~= entries@.skip(i + 1 as int));
        }
        if entries[i].0.same(id) {
            return Some(&entries[i].1);
        }
        i += 1;
    }
    proof {
        assert(entries@.skip(i as int) =~= Seq::<(WidgetId, V)>::empty());
    }
    None
}

/// Insert or overwrite the entry with widget key `id`.
pub fn wassoc_set<V>(entries: &mut Vec<(WidgetId, V)>, id: WidgetId, value: V)
    requires
        wdistinct_keys(old(entries)@),
    ensures
        wdistinct_keys(final(entries)@),
        forall|k: Seq<u64>|
            wassoc_get(final(entries)@, k) == if k == id@ {
                Some(value)
            } else {
                wassoc_get(old(entries)@, k)
            },
{
    let ghost orig = entries@;
    let mut i: usize = 0;
    while i < entries.len()
        invariant
            entries@ == orig,
            old(entries)@ == orig,
            wdistinct_keys(orig),
            i <= orig.len(),
            forall|j: int| 0 <= j < i ==> orig[j].0@ != id@,
        decreases orig.len() - i,
    {
        if entries[i].0.same(&id) {
            let ghost key = id@;
            entries.set(i, (id, value));
            proof {
                assert(entries@ == orig.update(i as int, (entries@[i as int].0, value)));
                assert(entries@[i as int].0@ == key);
                assert forall|k: Seq<u64>|
                    #[trigger] wassoc_get(entries@, k) == (if k == key {
                        Some(value)
                    } else {
                        wassoc_get(orig, k)
                    }) by {
                    lemma_wassoc_get_update(orig, i as int, entries@[i as int].0, value, k);
                    assert(entries@ =~= orig.update(i as int, (entries@[i as int].0, value)));
                }
                lemma_wassoc_get_update(orig, i as int, entries@[i as int].0, value, key);
            }
            return ;
        }
        i += 1;
    }
    let ghost key = id@;
    entries.push((id, value));
    proof {
        assert(wassoc_free(orig, key));
        assert(entries@ == orig.push(entries@.last()));
        assert(entries@.last().0@ == key);
        assert forall|k: Seq<u64>|
            #[trigger] wassoc_get(entries@, k) == (if k == key {
                Some(value)
            } else {
                wassoc_get(orig, k)
            }) by {
            lemma_wassoc_get_push(orig, entries@.last().0, value, k);
        }
        assert(wdistinct_keys(entries@));
    }
}

/// Remove the entry with widget key `id`, returning its value.
pub fn wassoc_remove<V>(entries: &mut Vec<(WidgetId, V)>, id: &WidgetId) -> (r: Option<V>)
    requires
        wdistinct_keys(old(entries)@),
    ensures
        wdistinct_keys(final(entries)@),
        r == wassoc_get(old(entries)@, id@),
        forall|k: Seq<u64>|
            wassoc_get(final(entries)@, k) == if k == id@ {
                None::<V>
            } else {
                wassoc_get(old(entries)@, k)
            },
{
    let ghost orig = entries@;
    let mut i: usize = 0;
    while i < entries.len()
        invariant
            entries@ == orig,
            old(entries)@ == orig,
            wdistinct_keys(orig),
            i <= orig.len(),
            forall|j: int| 0 <= j < i ==> orig[j].0@ != id@,
        decreases orig.len() - i,
    {
        if entries[i].0.same(id) {
            let ghost key = id@;
            let pair = entries.remove(i);
            proof {
                assert(orig[i as int].0@ == key);
                lemma_wassoc_get_index(orig, i as int);
                assert(wassoc_get(orig, key) == Some(orig[i as int].1));
                assert(pair == orig[i as int]);
                assert(entries@ == orig.remove(i as int));
                assert forall|k: Seq<u64>|
                    #[trigger] wassoc_get(entries@, k) == (if k == key {
                        None::<V>
                    } else {
                        wassoc_get(orig, k)
                    }) by {
                    lemma_wassoc_get_remove(orig, i as int, k);
                }
                lemma_wassoc_get_remove(orig, i as int, key);
            }
            return Some(pair.1);
        }
        i += 1;
    }
    proof {
        assert(wassoc_free(orig, id@));
        lemma_wassoc_get_free(orig, id@);
    }
    None
}

} // verus!
