//! Association lists with first-match lookup. The registries and per-widget
//! state stores are all keyed maps; these lists, kept with distinct keys,
//! are their common implementation. One family is keyed by strings (type
//! names, component names), the other by widget identities.

use vstd::prelude::*;
use crate::text::str_eq;

verus! {

/// Lookup of the first entry with string key `k`.
pub open spec fn assoc_get<V>(s: Seq<(String, V)>, k: Seq<char>) -> Option<V>
    decreases s.len(),
{
    if s.len() == 0 {
        None
    } else if s[0].0@ == k {
        Some(s[0].1)
    } else {
        assoc_get(s.drop_first(), k)
    }
}

/// No entry carries key `k`.
pub open spec fn assoc_free<V>(s: Seq<(String, V)>, k: Seq<char>) -> bool {
    forall|i: int| 0 <= i < s.len() ==> s[i].0@ != k
}

/// All keys are distinct, as in a map.
pub open spec fn distinct_keys<V>(s: Seq<(String, V)>) -> bool {
    forall|i: int, j: int| 0 <= i < j < s.len() ==> s[i].0@ != s[j].0@
}

pub proof fn lemma_assoc_get_free<V>(s: Seq<(String, V)>, k: Seq<char>)
    requires
        assoc_free(s, k),
    ensures
        assoc_get(s, k) is None,
    decreases s.len(),
{
    if s.len() > 0 {
        assert(assoc_free(s.drop_first(), k));
        lemma_assoc_get_free(s.drop_first(), k);
    }
}

pub proof fn lemma_assoc_get_index<V>(s: Seq<(String, V)>, i: int)
    requires
        distinct_keys(s),
        0 <= i < s.len(),
    ensures
        assoc_get(s, s[i].0@) == Some(s[i].1),
    decreases s.len(),
{
    if i > 0 {
        assert(distinct_keys(s.drop_first()));
        lemma_assoc_get_index(s.drop_first(), i - 1);
    }
}

pub proof fn lemma_assoc_get_update<V>(s: Seq<(String, V)>, i: int, name: String, v: V, k: Seq<char>)
    requires
        distinct_keys(s),
        0 <= i < s.len(),
        name@ == s[i].0@,
    ensures
        assoc_get(s.update(i, (name, v)), k) == if k == s[i].0@ {
            Some(v)
        } else {
            assoc_get(s, k)
        },
        distinct_keys(s.update(i, (name, v))),
    decreases s.len(),
{
    let t = s.update(i, (name, v));
    assert(forall|j: int| 0 <= j < s.len() ==> t[j].0@ == s[j].0@);
    if i == 0 {
        assert(t.drop_first() =~= s.drop_first());
    } else {
        assert(t[0] == s[0]);
        assert(t.drop_first() =~= s.drop_first().update(i - 1, (name, v)));
        assert(distinct_keys(s.drop_first()));
        assert(s.drop_first()[i - 1] == s[i]);
        lemma_assoc_get_update(s.drop_first(), i - 1, name, v, k);
    }
}

pub proof fn lemma_assoc_get_push<V>(s: Seq<(String, V)>, name: String, v: V, k: Seq<char>)
    requires
        assoc_free(s, name@),
    ensures
        assoc_get(s.push((name, v)), k) == if k == name@ {
            Some(v)
        } else {
            assoc_get(s, k)
        },
    decreases s.len(),
{
    let t = s.push((name, v));
    if s.len() == 0 {
        assert(t.drop_first() =~= Seq::<(String, V)>::empty());
    } else {
        assert(t[0] == s[0]);
        assert(t.drop_first() =~= s.drop_first().push((name, v)));
        assert(assoc_free(s.drop_first(), name@));
        lemma_assoc_get_push(s.drop_first(), name, v, k);
    }
}

pub proof fn lemma_assoc_get_remove<V>(s: Seq<(String, V)>, i: int, k: Seq<char>)
    requires
        distinct_keys(s),
        0 <= i < s.len(),
    ensures
        assoc_get(s.remove(i), k) == if k == s[i].0@ {
            None::<V>
        } else {
            assoc_get(s, k)
        },
        distinct_keys(s.remove(i)),
    decreases s.len(),
{
    let t = s.remove(i);
    assert(distinct_keys(t));
    if i == 0 {
        assert(t =~= s.drop_first());
        if k == s[0].0@ {
            assert(assoc_free(s.drop_first(), k));
            lemma_assoc_get_free(s.drop_first(), k);
        }
    } else {
        assert(t[0] == s[0]);
        assert(t.drop_first() =~= s.drop_first().remove(i - 1));
        assert(distinct_keys(s.drop_first()));
        assert(s.drop_first()[i - 1] == s[i]);
        lemma_assoc_get_remove(s.drop_first(), i - 1, k);
    }
}

/// Find the entry with string key `name`.
pub fn assoc_find<'a, V>(entries: &'a Vec<(String, V)>, name: &str) -> (r: Option<&'a V>)
    ensures
        match r {
            Some(v) => assoc_get(entries@, name@) == Some(*v),
            None => assoc_get(entries@, name@) is None,
        },
{
    proof {
        assert(entries@.skip(0) =~= entries@);
    }
    let mut i: usize = 0;
    while i < entries.len()
        invariant
            i <= entries@.len(),
            assoc_get(entries@, name@) == assoc_get(entries@.skip(i as int), name@),
        decreases entries@.len() - i,
    {
        proof {
            assert(entries@.skip(i as int)[0] == entries@[i as int]);
            assert(entries@.skip(i as int).drop_first() =~= entries@.skip(i + 1 as int));
        }
        if str_eq(entries[i].0.as_str(), name) {
            return Some(&entries[i].1);
        }
        i += 1;
    }
    proof {
        assert(entries@.skip(i as int) =~= Seq::<(String, V)>::empty());
    }
    None
}

/// Insert or overwrite the entry with string key `name`.
pub fn assoc_set<V>(entries: &mut Vec<(String, V)>, name: String, value: V)
    requires
        distinct_keys(old(entries)@),
    ensures
        distinct_keys(final(entries)@),
        forall|k: Seq<char>|
            assoc_get(final(entries)@, k) == if k == name@ {
                Some(value)
            } else {
                assoc_get(old(entries)@, k)
            },
{
    let ghost orig = entries@;
    let mut i: usize = 0;
    while i < entries.len()
        invariant
            entries@ == orig,
            old(entries)@ == orig,
            distinct_keys(orig),
            i <= orig.len(),
            forall|j: int| 0 <= j < i ==> orig[j].0@ != name@,
        decreases orig.len() - i,
    {
        if str_eq(entries[i].0.as_str(), name.as_str()) {
            let ghost key = name@;
            entries.set(i, (name, value));
            proof {
                assert(entries@ == orig.update(i as int, (entries@[i as int].0, value)));
                assert(entries@[i as int].0@ == key);
                assert forall|k: Seq<char>|
                    #[trigger] assoc_get(entries@, k) == (if k == key {
                        Some(value)
                    } else {
                        assoc_get(orig, k)
                    }) by {
                    lemma_assoc_get_update(orig, i as int, entries@[i as int].0, value, k);
                    assert(entries@ =~= orig.update(i as int, (entries@[i as int].0, value)));
                }
                lemma_assoc_get_update(orig, i as int, entries@[i as int].0, value, key);
            }
            return ;
        }
        i += 1;
    }
    let ghost key = name@;
    entries.push((name, value));
    proof {
        assert(assoc_free(orig, key));
        assert(entries@ == orig.push(entries@.last()));
        assert(entries@.last().0@ == key);
        assert forall|k: Seq<char>|
            #[trigger] assoc_get(entries@, k) == (if k == key {
                Some(value)
            } else {
                assoc_get(orig, k)
            }) by {
            lemma_assoc_get_push(orig, entries@.last().0, value, k);
        }
        assert(distinct_keys(entries@));
    }
}

/// Remove the entry with string key `name`, returning its value.
pub fn assoc_remove<V>(entries: &mut Vec<(String, V)>, name: &str) -> (r: Option<V>)
    requires
        distinct_keys(old(entries)@),
    ensures
        distinct_keys(final(entries)@),
        r == assoc_get(old(entries)@, name@),
        forall|k: Seq<char>|
            assoc_get(final(entries)@, k) == if k == name@ {
                None::<V>
            } else {
                assoc_get(old(entries)@, k)
            },
{
    let ghost orig = entries@;
    let mut i: usize = 0;
    while i < entries.len()
        invariant
            entries@ == orig,
            old(entries)@ == orig,
            distinct_keys(orig),
            i <= orig.len(),
            forall|j: int| 0 <= j < i ==> orig[j].0@ != name@,
        decreases orig.len() - i,
    {
        if str_eq(entries[i].0.as_str(), name) {
            let ghost key = name@;
            let pair = entries.remove(i);
            proof {
                assert(orig[i as int].0@ == key);
                lemma_assoc_get_index(orig, i as int);
                assert(assoc_get(orig, key) == Some(orig[i as int].1));
                assert(pair == orig[i as int]);
                assert(entries@ == orig.remove(i as int));
                assert forall|k: Seq<char>|
                    #[trigger] assoc_get(entries@, k) == (if k == key {
                        None::<V>
                    } else {
                        assoc_get(orig, k)
                    }) by {
                    lemma_assoc_get_remove(orig, i as int, k);
                }
                lemma_assoc_get_remove(orig, i as int, key);
            }
            return Some(pair.1);
        }
        i += 1;
    }
    proof {
        assert(assoc_free(orig, name@));
        lemma_assoc_get_free(orig, name@);
    }
    None
}

} // verus!
