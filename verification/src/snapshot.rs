//! The entity snapshot / apply cycle. Selecting an entity captures an
//! independently editable copy of its component values; every cycle the
//! snapshot is refreshed from the live store before rendering, the editors
//! mutate only the copy, and after rendering every captured value is applied
//! back to the live store. A selected entity that disappeared from the store
//! clears the selection on the next refresh.

use vstd::prelude::*;
use crate::assoc::assoc_find;
use crate::text::lex_le;
use crate::text::lemma_lex_le_total;
use crate::text::lemma_lex_le_trans;
use crate::text::str_le;
use crate::value::ValV;
use crate::value::Value;

verus! {

/// One component of a live entity: its name, and its reflected value when
/// the component supports reflection.
pub struct Component {
    pub name: String,
    pub repr: Option<Value>,
}

/// The view of a component.
pub struct ComponentV {
    pub name: Seq<char>,
    pub repr: Option<ValV>,
}

impl View for Component {
    type V = ComponentV;

    open spec fn view(&self) -> ComponentV {
        ComponentV {
            name: self.name@,
            repr: match self.repr {
                Some(v) => Some(v@),
                None => None,
            },
        }
    }
}

/// One live entity: a stable identifier, a display name, and components.
pub struct LiveEntity {
    pub id: u64,
    pub name: String,
    pub components: Vec<Component>,
}

/// The view of a live entity.
pub struct LiveEntityV {
    pub id: u64,
    pub name: Seq<char>,
    pub components: Seq<ComponentV>,
}

impl View for LiveEntity {
    type V = LiveEntityV;

    open spec fn view(&self) -> LiveEntityV {
        LiveEntityV { id: self.id, name: self.name@, components: comps_view(self.components@) }
    }
}

pub open spec fn comps_view(s: Seq<Component>) -> Seq<ComponentV>
    decreases s,
{
    if s.len() == 0 {
        Seq::empty()
    } else {
        seq![s[0]@] + comps_view(s.drop_first())
    }
}

pub proof fn lemma_comps_view(s: Seq<Component>)
    ensures
        comps_view(s).len() == s.len(),
        forall|i: int| 0 <= i < s.len() ==> comps_view(s)[i] == s[i]@,
    decreases s,
{
    if s.len() > 0 {
        lemma_comps_view(s.drop_first());
        assert(comps_view(s) == seq![s[0]@] + comps_view(s.drop_first()));
        assert forall|i: int| 0 <= i < s.len() implies comps_view(s)[i] == s[i]@ by {
            if i > 0 {
                assert(comps_view(s)[i] == comps_view(s.drop_first())[i - 1]);
                assert(s.drop_first()[i - 1] == s[i]);
            }
        }
    }
}

/// The live store the host owns: the set of live entities.
pub struct LiveStore {
    pub entities: Vec<LiveEntity>,
}

impl View for LiveStore {
    type V = Seq<LiveEntityV>;

    open spec fn view(&self) -> Seq<LiveEntityV> {
        ents_view(self.entities@)
    }
}

pub open spec fn ents_view(s: Seq<LiveEntity>) -> Seq<LiveEntityV>
    decreases s,
{
    if s.len() == 0 {
        Seq::empty()
    } else {
        seq![s[0]@] + ents_view(s.drop_first())
    }
}

pub proof fn lemma_ents_view(s: Seq<LiveEntity>)
    ensures
        ents_view(s).len() == s.len(),
        forall|i: int| 0 <= i < s.len() ==> ents_view(s)[i] == s[i]@,
    decreases s,
{
    if s.len() > 0 {
        lemma_ents_view(s.drop_first());
        assert(ents_view(s) == seq![s[0]@] + ents_view(s.drop_first()));
        assert forall|i: int| 0 <= i < s.len() implies ents_view(s)[i] == s[i]@ by {
            if i > 0 {
                assert(ents_view(s)[i] == ents_view(s.drop_first())[i - 1]);
                assert(s.drop_first()[i - 1] == s[i]);
            }
        }
    }
}

/// Component names are unique within an entity, as each component type
/// occurs once.
pub open spec fn comps_wf(s: Seq<ComponentV>) -> bool {
    forall|i: int, j: int| 0 <= i < j < s.len() ==> s[i].name != s[j].name
}

/// Entity identifiers are unique, and every entity's components are.
pub open spec fn store_wf(s: Seq<LiveEntityV>) -> bool {
    &&& forall|i: int, j: int| 0 <= i < j < s.len() ==> s[i].id != s[j].id
    &&& forall|i: int| 0 <= i < s.len() ==> comps_wf(#[trigger] s[i].components)
}

/// The first entity with the given identifier.
pub open spec fn spec_find_entity(s: Seq<LiveEntityV>, id: u64) -> Option<LiveEntityV>
    decreases s,
{
    if s.len() == 0 {
        None
    } else if s[0].id == id {
        Some(s[0])
    } else {
        spec_find_entity(s.drop_first(), id)
    }
}

/// Insert a name into a sorted name list, keeping it sorted.
pub open spec fn insert_sorted(x: Seq<char>, s: Seq<Seq<char>>) -> Seq<Seq<char>>
    decreases s,
{
    if s.len() == 0 {
        seq![x]
    } else if lex_le(x, s[0]) {
        seq![x] + s
    } else {
        seq![s[0]] + insert_sorted(x, s.drop_first())
    }
}

/// Sort a name list lexicographically, by insertion.
pub open spec fn sort_names(s: Seq<Seq<char>>) -> Seq<Seq<char>>
    decreases s,
{
    if s.len() == 0 {
        Seq::empty()
    } else {
        insert_sorted(s[0], sort_names(s.drop_first()))
    }
}

/// A name list in lexicographic order.
pub open spec fn names_sorted(s: Seq<Seq<char>>) -> bool {
    forall|i: int, j: int| 0 <= i < j < s.len() ==> lex_le(#[trigger] s[i], #[trigger] s[j])
}

pub proof fn lemma_insert_sorted(x: Seq<char>, s: Seq<Seq<char>>)
    requires
        names_sorted(s),
    ensures
        names_sorted(insert_sorted(x, s)),
        insert_sorted(x, s).len() == s.len() + 1,
        forall|i: int|
            0 <= i < insert_sorted(x, s).len() ==> #[trigger] insert_sorted(x, s)[i] == x || exists|
                j: int,
            | 0 <= j < s.len() && insert_sorted(x, s)[i] == s[j],
    decreases s,
{
    let t = insert_sorted(x, s);
    if s.len() == 0 {
    } else if lex_le(x, s[0]) {
        assert(t =~= seq![x] + s);
        assert forall|i: int, j: int| 0 <= i < j < t.len() implies lex_le(t[i], t[j]) by {
            if i == 0 {
                if j > 1 {
                    lemma_lex_le_trans(x, s[0], s[j - 1]);
                }
            }
        }
    } else {
        assert(names_sorted(s.drop_first()));
        lemma_insert_sorted(x, s.drop_first());
        let rest = insert_sorted(x, s.drop_first());
        assert(t =~= seq![s[0]] + rest);
        lemma_lex_le_total(x, s[0]);
        assert forall|i: int, j: int| 0 <= i < j < t.len() implies lex_le(t[i], t[j]) by {
            if i == 0 {
                assert(t[j] == rest[j - 1]);
                if rest[j - 1] == x {
                    assert(lex_le(s[0], x));
                } else {
                    let w = choose|w: int|
                        0 <= w < s.drop_first().len() && rest[j - 1] == s.drop_first()[w];
                    assert(s.drop_first()[w] == s[w + 1]);
                    assert(lex_le(s[0], s[w + 1]));
                }
            } else {
                assert(t[i] == rest[i - 1] && t[j] == rest[j - 1]);
            }
        }
    }
}

/// The result of sorting is in lexicographic order.
pub proof fn lemma_sort_names_sorted(s: Seq<Seq<char>>)
    ensures
        names_sorted(sort_names(s)),
    decreases s,
{
    if s.len() > 0 {
        lemma_sort_names_sorted(s.drop_first());
        lemma_insert_sorted(s[0], sort_names(s.drop_first()));
    }
}

/// Insert a name into a sorted list of names.
pub fn insert_string_sorted(x: String, names: Vec<String>) -> (r: Vec<String>)
    ensures
        names_view(r@) == insert_sorted(x@, names_view(names@)),
    decreases names@.len(),
{
    let mut names = names;
    if names.len() == 0 {
        let mut r: Vec<String> = Vec::new();
        r.push(x);
        proof {
            lemma_names_view(r@);
            assert(names_view(names@) =~= Seq::<Seq<char>>::empty());
            assert(names_view(r@) =~= seq![x@]);
        }
        r
    } else if str_le(x.as_str(), names[0].as_str()) {
        proof {
            lemma_names_view(names@);
        }
        let ghost pre = names_view(names@);
        let mut r: Vec<String> = Vec::new();
        r.push(x);
        let ghost mid = names@;
        r.append(&mut names);
        proof {
            lemma_names_view(r@);
            assert(r@ =~= seq![r@[0]] + mid);
            lemma_names_view(mid);
            assert(names_view(r@) =~= seq![x@] + pre);
        }
        r
    } else {
        proof {
            lemma_names_view(names@);
            assert(names@.drop_first() =~= names@.skip(1));
        }
        let ghost orig = names@;
        let head = names.remove(0);
        proof {
            assert(names@ =~= orig.drop_first());
            lemma_names_view(names@);
        }
        let ghost tailv = names_view(names@);
        let rest = insert_string_sorted(x, names);
        let mut r: Vec<String> = Vec::new();
        r.push(head);
        let mut rest = rest;
        let ghost restseq = rest@;
        r.append(&mut rest);
        proof {
            assert(r@ =~= seq![r@[0]] + restseq);
            lemma_names_view(r@);
            lemma_names_view(restseq);
            assert(names_view(r@) =~= seq![orig[0]@] + names_view(restseq));
            assert(names_view(orig)[0] == orig[0]@);
            assert(insert_sorted(x@, names_view(orig)) == seq![names_view(orig)[0]]
                + insert_sorted(x@, names_view(orig).drop_first()));
            assert(names_view(orig).drop_first() =~= tailv);
            assert(names_view(r@) =~= insert_sorted(x@, names_view(orig)));
        }
        r
    }
}

/// The names of an entity's components, in declaration order.
pub open spec fn comp_names(s: Seq<ComponentV>) -> Seq<Seq<char>>
    decreases s,
{
    if s.len() == 0 {
        Seq::empty()
    } else {
        seq![s[0].name] + comp_names(s.drop_first())
    }
}

pub proof fn lemma_comp_names(s: Seq<ComponentV>)
    ensures
        comp_names(s).len() == s.len(),
        forall|i: int| 0 <= i < s.len() ==> comp_names(s)[i] == s[i].name,
    decreases s,
{
    if s.len() > 0 {
        lemma_comp_names(s.drop_first());
        assert(comp_names(s) == seq![s[0].name] + comp_names(s.drop_first()));
        assert forall|i: int| 0 <= i < s.len() implies comp_names(s)[i] == s[i].name by {
            if i > 0 {
                assert(comp_names(s)[i] == comp_names(s.drop_first())[i - 1]);
                assert(s.drop_first()[i - 1] == s[i]);
            }
        }
    }
}

/// The captured values of an entity's reflectable components, keyed by
/// component name, in declaration order.
pub open spec fn comp_reprs(s: Seq<ComponentV>) -> Seq<(Seq<char>, ValV)>
    decreases s,
{
    if s.len() == 0 {
        Seq::empty()
    } else {
        match s[0].repr {
            Some(v) => seq![(s[0].name, v)] + comp_reprs(s.drop_first()),
            None => comp_reprs(s.drop_first()),
        }
    }
}

/// First-match lookup in a captured value list.
pub open spec fn rget(s: Seq<(Seq<char>, ValV)>, k: Seq<char>) -> Option<ValV>
    decreases s,
{
    if s.len() == 0 {
        None
    } else if s[0].0 == k {
        Some(s[0].1)
    } else {
        rget(s.drop_first(), k)
    }
}

/// With unique component names, the captured list reports exactly each
/// reflectable component's value, and nothing for the others.
pub proof fn lemma_comp_reprs_get(s: Seq<ComponentV>, i: int)
    requires
        comps_wf(s),
        0 <= i < s.len(),
    ensures
        match s[i].repr {
            Some(v) => rget(comp_reprs(s), s[i].name) == Some(v),
            None => rget(comp_reprs(s), s[i].name) is None,
        },
    decreases s,
{
    if i == 0 {
        match s[0].repr {
            Some(v) => {
                let t = comp_reprs(s);
                assert(t == seq![(s[0].name, v)] + comp_reprs(s.drop_first()));
                assert(t[0] == (s[0].name, v));
            },
            None => {
                lemma_comp_reprs_free(s.drop_first(), s[0].name);
            },
        }
    } else {
        assert(comps_wf(s.drop_first()));
        assert(s.drop_first()[i - 1] == s[i]);
        lemma_comp_reprs_get(s.drop_first(), i - 1);
        assert(s[0].name != s[i].name);
        match s[0].repr {
            Some(v) => {
                let t = comp_reprs(s);
                assert(t == seq![(s[0].name, v)] + comp_reprs(s.drop_first()));
                assert(t[0] == (s[0].name, v));
                assert(t.drop_first() =~= comp_reprs(s.drop_first()));
            },
            None => {},
        }
    }
}

/// A name carried by no component is absent from the captured list.
pub proof fn lemma_comp_reprs_free(s: Seq<ComponentV>, k: Seq<char>)
    requires
        forall|i: int| 0 <= i < s.len() ==> s[i].name != k,
    ensures
        rget(comp_reprs(s), k) is None,
    decreases s,
{
    if s.len() > 0 {
        assert(forall|i: int| 0 <= i < s.drop_first().len() ==> s.drop_first()[i].name != k);
        lemma_comp_reprs_free(s.drop_first(), k);
        match s[0].repr {
            Some(v) => {
                let t = comp_reprs(s);
                assert(t == seq![(s[0].name, v)] + comp_reprs(s.drop_first()));
                assert(t[0] == (s[0].name, v));
                assert(t.drop_first() =~= comp_reprs(s.drop_first()));
                assert(s[0].name != k);
            },
            None => {},
        }
    }
}

/// The snapshot of a selected entity: its ordered component-name list, and
/// an independently owned captured value per reflectable component.
#[derive(Debug, PartialEq, Eq)]
pub struct EntityComponents {
    pub components: Vec<String>,
    pub reprs: Vec<(String, Value)>,
}

/// The view of a snapshot.
pub struct SnapV {
    pub names: Seq<Seq<char>>,
    pub reprs: Seq<(Seq<char>, ValV)>,
}

pub open spec fn reprs_view(s: Seq<(String, Value)>) -> Seq<(Seq<char>, ValV)>
    decreases s,
{
    if s.len() == 0 {
        Seq::empty()
    } else {
        seq![(s[0].0@, s[0].1@)] + reprs_view(s.drop_first())
    }
}

pub proof fn lemma_reprs_view(s: Seq<(String, Value)>)
    ensures
        reprs_view(s).len() == s.len(),
        forall|i: int| 0 <= i < s.len() ==> reprs_view(s)[i] == (s[i].0@, s[i].1@),
    decreases s,
{
    if s.len() > 0 {
        lemma_reprs_view(s.drop_first());
        assert(reprs_view(s) == seq![(s[0].0@, s[0].1@)] + reprs_view(s.drop_first()));
        assert forall|i: int| 0 <= i < s.len() implies reprs_view(s)[i] == (s[i].0@, s[i].1@) by {
            if i > 0 {
                assert(reprs_view(s)[i] == reprs_view(s.drop_first())[i - 1]);
                assert(s.drop_first()[i - 1] == s[i]);
            }
        }
    }
}

impl View for EntityComponents {
    type V = SnapV;

    open spec fn view(&self) -> SnapV {
        SnapV { names: names_view(self.components@), reprs: reprs_view(self.reprs@) }
    }
}

/// What capturing yields: the entity's component names sorted, and a copy
/// of each reflectable component's value, or nothing when the entity is
/// gone from the store.
pub open spec fn spec_snapshot(s: Seq<LiveEntityV>, id: u64) -> Option<SnapV> {
    match spec_find_entity(s, id) {
        None => None,
        Some(e) => Some(
            SnapV { names: sort_names(comp_names(e.components)), reprs: comp_reprs(e.components) },
        ),
    }
}

/// What applying a snapshot leaves in one entity's components: each
/// captured value written back to the component of the same name, the
/// other components untouched.
pub open spec fn apply_comps(s: Seq<ComponentV>, reprs: Seq<(Seq<char>, ValV)>) -> Seq<ComponentV> {
    Seq::new(
        s.len(),
        |i: int|
            match rget(reprs, s[i].name) {
                Some(v) => ComponentV { name: s[i].name, repr: Some(v) },
                None => s[i],
            },
    )
}

/// What applying a snapshot leaves in the store: the selected entity's
/// components written back, every other entity untouched. Writing back to
/// an entity that disappeared changes nothing.
pub open spec fn spec_apply(s: Seq<LiveEntityV>, id: u64, reprs: Seq<(Seq<char>, ValV)>) -> Seq<
    LiveEntityV,
> {
    Seq::new(
        s.len(),
        |i: int|
            if s[i].id == id {
                LiveEntityV {
                    id: s[i].id,
                    name: s[i].name,
                    components: apply_comps(s[i].components, reprs),
                }
            } else {
                s[i]
            },
    )
}

pub proof fn lemma_find_apply(s: Seq<LiveEntityV>, id: u64, reprs: Seq<(Seq<char>, ValV)>)
    ensures
        spec_find_entity(spec_apply(s, id, reprs), id) == match spec_find_entity(s, id) {
            Some(e) => Some(
                LiveEntityV { id: e.id, name: e.name, components: apply_comps(e.components, reprs) },
            ),
            None => None::<LiveEntityV>,
        },
    decreases s,
{
    let t = spec_apply(s, id, reprs);
    if s.len() > 0 {
        assert(t[0] == if s[0].id == id {
            LiveEntityV { id: s[0].id, name: s[0].name, components: apply_comps(s[0].components, reprs) }
        } else {
            s[0]
        });
        if s[0].id == id {
        } else {
            assert(t.drop_first() =~= spec_apply(s.drop_first(), id, reprs));
            lemma_find_apply(s.drop_first(), id, reprs);
        }
    }
}

/// Capturing a snapshot, applying it back unmodified, and re-capturing
/// yields an identical snapshot: rendering without an edit never mutates
/// the live store's values.
pub proof fn lemma_snapshot_round_trip(s: Seq<LiveEntityV>, id: u64)
    requires
        store_wf(s),
        spec_snapshot(s, id) is Some,
    ensures
        spec_snapshot(spec_apply(s, id, spec_snapshot(s, id)->Some_0.reprs), id) == spec_snapshot(
            s,
            id,
        ),
{
    let snap = spec_snapshot(s, id)->Some_0;
    let e = spec_find_entity(s, id)->Some_0;
    lemma_find_entity_wf(s, id);
    lemma_find_apply(s, id, snap.reprs);
    assert forall|i: int| 0 <= i < e.components.len() implies apply_comps(
        e.components,
        snap.reprs,
    )[i] == e.components[i] by {
        lemma_comp_reprs_get(e.components, i);
    }
    assert(apply_comps(e.components, snap.reprs) =~= e.components);
}

/// The entity a find yields is one of the store's, so its components carry
/// unique names.
pub proof fn lemma_find_entity_wf(s: Seq<LiveEntityV>, id: u64)
    requires
        store_wf(s),
    ensures
        match spec_find_entity(s, id) {
            Some(e) => comps_wf(e.components) && e.id == id,
            None => true,
        },
    decreases s,
{
    if s.len() > 0 {
        if s[0].id == id {
            assert(comps_wf(s[0].components));
        } else {
            assert(store_wf(s.drop_first())) by {
                assert(forall|i: int|
                    0 <= i < s.drop_first().len() ==> s.drop_first()[i] == s[i + 1]);
            }
            lemma_find_entity_wf(s.drop_first(), id);
        }
    }
}

impl EntityComponents {
    /// Capture a snapshot of the entity's components from the live store:
    /// the sorted component-name list, and a copy of every reflectable
    /// component's value. Yields nothing when the entity is gone.
    pub fn from_entity(store: &LiveStore, id: u64) -> (r: Option<EntityComponents>)
        ensures
            match r {
                Some(snap) => spec_snapshot(store@, id) == Some(snap@),
                None => spec_snapshot(store@, id) is None,
            },
    {
        proof {
            lemma_ents_view(store.entities@);
        }
        proof {
            assert(store@.skip(0) =~= store@);
        }
        let mut ei: usize = 0;
        let n = store.entities.len();
        loop
            invariant
                ei <= n,
                n == store.entities@.len(),
                ents_view(store.entities@).len() == n,
                forall|i: int| 0 <= i < n ==> ents_view(store.entities@)[i] == store.entities@[i]@,
                spec_find_entity(store@, id) == spec_find_entity(store@.skip(ei as int), id),
            ensures
                ei < n ==> store.entities@[ei as int]@.id == id && spec_find_entity(store@, id)
                    == Some(store.entities@[ei as int]@),
                ei == n ==> spec_find_entity(store@, id) is None,
            decreases n - ei,
        {
            if ei == n {
                proof {
                    assert(store@.skip(ei as int) =~= Seq::<LiveEntityV>::empty());
                }
                break ;
            }
            proof {
                assert(store@.skip(ei as int)[0] == store@[ei as int]);
                assert(store@.skip(ei as int).drop_first() =~= store@.skip(ei + 1 as int));
            }
            if store.entities[ei].id == id {
                break ;
            }
            ei += 1;
        }
        if ei == n {
            return None;
        }
        let entity = &store.entities[ei];
        let ghost comps = entity@.components;
        proof {
            lemma_comps_view(entity.components@);
        }
        let mut names: Vec<String> = Vec::new();
        let mut reprs: Vec<(String, Value)> = Vec::new();
        let mut i: usize = 0;
        while i < entity.components.len()
            invariant
                i <= entity.components@.len(),
                comps == comps_view(entity.components@),
                comps.len() == entity.components@.len(),
                forall|j: int|
                    0 <= j < entity.components@.len() ==> comps[j] == entity.components@[j]@,
                names_view(names@) == comp_names(comps.take(i as int)),
                reprs_view(reprs@) == comp_reprs(comps.take(i as int)),
            decreases entity.components@.len() - i,
        {
            let ghost pre_names_seq = names@;
            let ghost pre_reprs_seq = reprs@;
            names.push(entity.components[i].name.clone());
            match &entity.components[i].repr {
                Some(v) => {
                    reprs.push((entity.components[i].name.clone(), v.duplicate()));
                },
                None => {},
            }
            proof {
                lemma_names_view(names@);
                lemma_names_view(pre_names_seq);
                lemma_reprs_view(reprs@);
                lemma_reprs_view(pre_reprs_seq);
                let t = comps.take(i + 1 as int);
                lemma_take_snoc_names(comps, i as int);
                assert(comps[i as int] == entity.components@[i as int]@);
                assert(names@ == pre_names_seq.push(names@.last()));
                assert(names@.last()@ == comps[i as int].name);
                assert(names_view(names@) =~= names_view(pre_names_seq).push(
                    comps[i as int].name,
                ));
                assert(names_view(names@) =~= comp_names(t));
                match entity.components@[i as int].repr {
                    Some(_) => {
                        assert(reprs@ == pre_reprs_seq.push(reprs@.last()));
                        assert(reprs@.last().0@ == comps[i as int].name);
                        assert(reprs_view(reprs@) =~= reprs_view(pre_reprs_seq).push(
                            (reprs@.last().0@, reprs@.last().1@),
                        ));
                        assert((reprs@.last().0@, reprs@.last().1@) == (comps[i as int].name,
                        comps[i as int].repr->Some_0));
                    },
                    None => {
                        assert(reprs@ == pre_reprs_seq);
                    },
                }
                assert(reprs_view(reprs@) =~= comp_reprs(t));
            }
            i += 1;
        }
        proof {
            assert(comps.take(i as int) =~= comps);
        }
        let components = sort_strings(names);
        Some(EntityComponents { components, reprs })
    }
}

/// Extending a prefix by one component extends its names and captured
/// values accordingly.
pub proof fn lemma_take_snoc_names(s: Seq<ComponentV>, i: int)
    requires
        0 <= i < s.len(),
    ensures
        comp_names(s.take(i + 1)) == comp_names(s.take(i)).push(s[i].name),
        comp_reprs(s.take(i + 1)) == match s[i].repr {
            Some(v) => comp_reprs(s.take(i)).push((s[i].name, v)),
            None => comp_reprs(s.take(i)),
        },
    decreases i,
{
    if i == 0 {
        assert(s.take(0) =~= Seq::<ComponentV>::empty());
        assert(s.take(1) =~= seq![s[0]]);
        assert(s.take(1).drop_first() =~= Seq::<ComponentV>::empty());
        assert(comp_names(s.take(1)) =~= comp_names(s.take(0)).push(s[0].name));
        match s[0].repr {
            Some(v) => {
                assert(comp_reprs(s.take(1)) =~= comp_reprs(s.take(0)).push((s[0].name, v)));
            },
            None => {},
        }
    } else {
        lemma_take_snoc_names(s.drop_first(), i - 1);
        assert(s.take(i + 1)[0] == s[0]);
        assert(s.take(i + 1).drop_first() =~= s.drop_first().take(i));
        assert(s.take(i).drop_first() =~= s.drop_first().take(i - 1));
        assert(s.take(i)[0] == s[0]);
        assert(s.drop_first()[i - 1] == s[i]);
        match s[0].repr {
            Some(v) => {
                assert(comp_names(s.take(i + 1)) =~= comp_names(s.take(i)).push(s[i].name));
                match s[i].repr {
                    Some(w) => {
                        assert(comp_reprs(s.take(i + 1)) =~= comp_reprs(s.take(i)).push(
                            (s[i].name, w),
                        ));
                    },
                    None => {},
                }
            },
            None => {
                assert(comp_names(s.take(i + 1)) =~= comp_names(s.take(i)).push(s[i].name));
                match s[i].repr {
                    Some(w) => {
                        assert(comp_reprs(s.take(i + 1)) =~= comp_reprs(s.take(i)).push(
                            (s[i].name, w),
                        ));
                    },
                    None => {},
                }
            },
        }
    }
}

/// The views of a list of names.
pub open spec fn names_view(s: Seq<String>) -> Seq<Seq<char>>
    decreases s,
{
    if s.len() == 0 {
        Seq::empty()
    } else {
        seq![s[0]@] + names_view(s.drop_first())
    }
}

pub proof fn lemma_names_view(s: Seq<String>)
    ensures
        names_view(s).len() == s.len(),
        forall|i: int| 0 <= i < s.len() ==> names_view(s)[i] == s[i]@,
    decreases s,
{
    if s.len() > 0 {
        lemma_names_view(s.drop_first());
        assert(names_view(s) == seq![s[0]@] + names_view(s.drop_first()));
        assert forall|i: int| 0 <= i < s.len() implies names_view(s)[i] == s[i]@ by {
            if i > 0 {
                assert(names_view(s)[i] == names_view(s.drop_first())[i - 1]);
                assert(s.drop_first()[i - 1] == s[i]);
            }
        }
    }
}

/// Sort a list of names lexicographically.
pub fn sort_strings(names: Vec<String>) -> (r: Vec<String>)
    ensures
        names_view(r@) == sort_names(names_view(names@)),
    decreases names@.len(),
{
    let mut names = names;
    if names.len() == 0 {
        proof {
            assert(names_view(names@) =~= Seq::<Seq<char>>::empty());
        }
        names
    } else {
        proof {
            lemma_names_view(names@);
        }
        let ghost orig = names@;
        let head = names.remove(0);
        proof {
            assert(names@ =~= orig.drop_first());
        }
        let sorted = sort_strings(names);
        let r = insert_string_sorted(head, sorted);
        proof {
            assert(names_view(orig)[0] == orig[0]@);
            assert(names_view(orig).drop_first() =~= names_view(orig.drop_first()));
        }
        r
    }
}

/// Captured values report through their views what the string-keyed list
/// holds.
pub proof fn lemma_rget_assoc(s: Seq<(String, Value)>, k: Seq<char>)
    ensures
        rget(reprs_view(s), k) == match crate::assoc::assoc_get(s, k) {
            Some(v) => Some(v@),
            None => None::<ValV>,
        },
    decreases s,
{
    if s.len() > 0 {
        lemma_rget_assoc(s.drop_first(), k);
        let t = reprs_view(s);
        assert(t == seq![(s[0].0@, s[0].1@)] + reprs_view(s.drop_first()));
        assert(t[0] == (s[0].0@, s[0].1@));
        assert(t.drop_first() =~= reprs_view(s.drop_first()));
    }
}

/// The entity the inspector is showing: its identifier, display name, and
/// component snapshot.
pub struct SelectedEntity {
    pub id: u64,
    pub name: String,
    pub state: EntityComponents,
}

/// Refresh the selection's snapshot from the live store before rendering,
/// discarding the prior clone. A selected entity that disappeared from the
/// store clears the selection.
pub fn collect_entity_state(store: &LiveStore, selected: Option<SelectedEntity>) -> (r: Option<
    SelectedEntity,
>)
    ensures
        selected is None ==> r is None,
        selected matches Some(sel) ==> match r {
            Some(ns) => ns.id == sel.id && ns.name@ == sel.name@ && spec_snapshot(store@, sel.id)
                == Some(ns.state@),
            None => spec_snapshot(store@, sel.id) is None,
        },
{
    match selected {
        None => None,
        Some(sel) => match EntityComponents::from_entity(store, sel.id) {
            Some(state) => Some(SelectedEntity { id: sel.id, name: sel.name, state }),
            None => None,
        },
    }
}

/// Write a snapshot's captured values back into one component list: each
/// captured value replaces the component of the same name; components the
/// snapshot does not know stay as they are.
fn apply_to_comps(comps: Vec<Component>, reprs: &Vec<(String, Value)>) -> (r: Vec<Component>)
    ensures
        comps_view(r@) == apply_comps(comps_view(comps@), reprs_view(reprs@)),
{
    let ghost orig = comps_view(comps@);
    let ghost rv = reprs_view(reprs@);
    proof {
        lemma_comps_view(comps@);
    }
    let mut rest = comps;
    let mut out: Vec<Component> = Vec::new();
    let n = rest.len();
    let mut i: usize = 0;
    while i < n
        invariant
            i <= n,
            n == orig.len(),
            rest@.len() == n - i,
            forall|j: int| 0 <= j < n - i ==> (#[trigger] rest@[j])@ == orig[j + i],
            rv == reprs_view(reprs@),
            out@.len() == i,
            forall|j: int| 0 <= j < i ==> (#[trigger] out@[j])@ == apply_comps(orig, rv)[j],
        decreases n - i,
    {
        let c = rest.remove(0);
        proof {
            assert(c@ == orig[i as int]);
        }
        let found = assoc_find(reprs, c.name.as_str());
        proof {
            lemma_rget_assoc(reprs@, c.name@);
        }
        match found {
            Some(v) => {
                out.push(Component { name: c.name, repr: Some(v.duplicate()) });
            },
            None => {
                out.push(c);
            },
        }
        proof {
            assert(out@.last()@ == apply_comps(orig, rv)[i as int]);
            assert(forall|j: int| 0 <= j < rest@.len() ==> (#[trigger] rest@[j])@ == orig[
                j + i + 1]);
        }
        i += 1;
    }
    proof {
        lemma_comps_view(out@);
        assert(comps_view(out@) =~= apply_comps(orig, rv));
    }
    out
}

/// Apply every captured component value of the selection back to the live
/// store. Writing back to an entity that disappeared changes nothing, and a
/// component the entity no longer carries is skipped silently.
pub fn apply_entity_state(store: &mut LiveStore, sel: &SelectedEntity)
    ensures
        final(store)@ == spec_apply(old(store)@, sel.id, reprs_view(sel.state.reprs@)),
{
    let ghost orig = old(store)@;
    let ghost rv = reprs_view(sel.state.reprs@);
    proof {
        lemma_ents_view(store.entities@);
    }
    let n = store.entities.len();
    let mut i: usize = 0;
    while i < n
        invariant
            i <= n,
            n == store.entities@.len(),
            orig.len() == n,
            rv == reprs_view(sel.state.reprs@),
            forall|j: int| i <= j < n ==> (#[trigger] store.entities@[j])@ == orig[j],
            forall|j: int|
                0 <= j < i ==> (#[trigger] store.entities@[j])@ == spec_apply(orig, sel.id, rv)[j],
        decreases n - i,
    {
        if store.entities[i].id == sel.id {
            let e = store.entities.remove(i);
            let LiveEntity { id, name, components } = e;
            let components = apply_to_comps(components, &sel.state.reprs);
            store.entities.insert(i, LiveEntity { id, name, components });
            proof {
                assert(store.entities@[i as int]@ == spec_apply(orig, sel.id, rv)[i as int]);
                assert(forall|j: int|
                    i < j < n ==> (#[trigger] store.entities@[j])@ == orig[j]);
            }
        } else {
            proof {
                assert(store.entities@[i as int]@ == spec_apply(orig, sel.id, rv)[i as int]);
            }
        }
        i += 1;
    }
    proof {
        lemma_ents_view(store.entities@);
        assert(ents_view(store.entities@) =~= spec_apply(orig, sel.id, rv));
    }
}

} // verus!
