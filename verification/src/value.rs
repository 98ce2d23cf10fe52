//! The type-erased value model: an independently owned tree over the closed
//! shape set, identified by a type name. Snapshots hold such values cloned
//! from the live store; editors mutate them in place. The mathematical view
//! of a value is `ValV`, a tree over sequences; contracts speak of views.

use vstd::prelude::*;
use crate::shape::NumKind;

verus! {

/// One field of a composite value: an optional field name and the value.
#[derive(Debug, PartialEq, Eq)]
pub struct FieldVal {
    pub name: Option<String>,
    pub value: Value,
}

/// How a composite value is written in source: with named fields, as a
/// tuple struct, or as a bare tuple.
#[derive(Clone, Copy, Debug, PartialEq, Eq, Structural)]
pub enum CompositeKind {
    Struct,
    TupleStruct,
    Tuple,
}

/// The payload of an enum value's active variant.
#[derive(Debug, PartialEq, Eq)]
pub enum Payload {
    Unit,
    Tuple(Vec<FieldVal>),
    Struct(Vec<FieldVal>),
}

/// A type-erased value over the closed shape set.
#[derive(Debug, PartialEq, Eq)]
pub enum Value {
    Bool { value: bool },
    Num { kind: NumKind, value: i128 },
    Text { value: String },
    Composite { kind: CompositeKind, type_path: String, fields: Vec<FieldVal> },
    List { type_path: String, items: Vec<Value> },
    Array { type_path: String, items: Vec<Value> },
    Mapping { type_path: String, entries: Vec<(Value, Value)> },
    Enum { type_path: String, variant: String, payload: Payload },
    Opaque { type_path: String },
}

/// The view of one composite field.
pub struct FieldV {
    pub name: Option<Seq<char>>,
    pub value: ValV,
}

/// The view of an enum payload.
pub enum PayloadV {
    Unit,
    Tuple(Seq<FieldV>),
    Struct(Seq<FieldV>),
}

/// The mathematical view of a value: the same tree over sequences.
pub enum ValV {
    Bool { value: bool },
    Num { kind: NumKind, value: int },
    Text { value: Seq<char> },
    Composite { kind: CompositeKind, type_path: Seq<char>, fields: Seq<FieldV> },
    List { type_path: Seq<char>, items: Seq<ValV> },
    Array { type_path: Seq<char>, items: Seq<ValV> },
    Mapping { type_path: Seq<char>, entries: Seq<(ValV, ValV)> },
    Enum { type_path: Seq<char>, variant: Seq<char>, payload: PayloadV },
    Opaque { type_path: Seq<char> },
}

pub open spec fn name_view(n: Option<String>) -> Option<Seq<char>> {
    match n {
        Some(s) => Some(s@),
        None => None,
    }
}

pub open spec fn field_view(f: FieldVal) -> FieldV
    decreases f,
{
    FieldV { name: name_view(f.name), value: f.value.view() }
}

pub open spec fn fields_view(s: Seq<FieldVal>) -> Seq<FieldV>
    decreases s,
{
    if s.len() == 0 {
        Seq::empty()
    } else {
        seq![field_view(s[0])] + fields_view(s.drop_first())
    }
}

pub open spec fn values_view(s: Seq<Value>) -> Seq<ValV>
    decreases s,
{
    if s.len() == 0 {
        Seq::empty()
    } else {
        seq![s[0].view()] + values_view(s.drop_first())
    }
}

pub open spec fn entries_view(s: Seq<(Value, Value)>) -> Seq<(ValV, ValV)>
    decreases s,
{
    if s.len() == 0 {
        Seq::empty()
    } else {
        seq![(s[0].0.view(), s[0].1.view())] + entries_view(s.drop_first())
    }
}

impl View for Payload {
    type V = PayloadV;

    open spec fn view(&self) -> PayloadV
        decreases *self,
    {
        match *self {
            Payload::Unit => PayloadV::Unit,
            Payload::Tuple(fields) => PayloadV::Tuple(fields_view(fields@)),
            Payload::Struct(fields) => PayloadV::Struct(fields_view(fields@)),
        }
    }
}

impl View for Value {
    type V = ValV;

    open spec fn view(&self) -> ValV
        decreases *self,
    {
        match *self {
            Value::Bool { value } => ValV::Bool { value },
            Value::Num { kind, value } => ValV::Num { kind, value: value as int },
            Value::Text { value } => ValV::Text { value: value@ },
            Value::Composite { kind, type_path, fields } => ValV::Composite {
                kind,
                type_path: type_path@,
                fields: fields_view(fields@),
            },
            Value::List { type_path, items } => ValV::List {
                type_path: type_path@,
                items: values_view(items@),
            },
            Value::Array { type_path, items } => ValV::Array {
                type_path: type_path@,
                items: values_view(items@),
            },
            Value::Mapping { type_path, entries } => ValV::Mapping {
                type_path: type_path@,
                entries: entries_view(entries@),
            },
            Value::Enum { type_path, variant, payload } => ValV::Enum {
                type_path: type_path@,
                variant: variant@,
                payload: payload.view(),
            },
            Value::Opaque { type_path } => ValV::Opaque { type_path: type_path@ },
        }
    }
}

pub proof fn lemma_fields_view(s: Seq<FieldVal>)
    ensures
        fields_view(s).len() == s.len(),
        forall|i: int| 0 <= i < s.len() ==> fields_view(s)[i] == field_view(s[i]),
    decreases s,
{
    if s.len() > 0 {
        lemma_fields_view(s.drop_first());
    }
}

pub proof fn lemma_values_view(s: Seq<Value>)
    ensures
        values_view(s).len() == s.len(),
        forall|i: int| 0 <= i < s.len() ==> values_view(s)[i] == s[i].view(),
    decreases s,
{
    if s.len() > 0 {
        lemma_values_view(s.drop_first());
        assert(values_view(s) == seq![s[0].view()] + values_view(s.drop_first()));
        assert(values_view(s).len() == 1 + values_view(s.drop_first()).len());
        assert forall|i: int| 0 <= i < s.len() implies values_view(s)[i] == s[i].view() by {
            if i > 0 {
                assert(values_view(s)[i] == values_view(s.drop_first())[i - 1]);
                assert(s.drop_first()[i - 1] == s[i]);
            }
        }
    }
}

pub proof fn lemma_entries_view(s: Seq<(Value, Value)>)
    ensures
        entries_view(s).len() == s.len(),
        forall|i: int| 0 <= i < s.len() ==> entries_view(s)[i] == (s[i].0.view(), s[i].1.view()),
    decreases s,
{
    if s.len() > 0 {
        lemma_entries_view(s.drop_first());
        assert(entries_view(s) == seq![(s[0].0.view(), s[0].1.view())] + entries_view(
            s.drop_first(),
        ));
        assert(entries_view(s).len() == 1 + entries_view(s.drop_first()).len());
        assert forall|i: int|
            0 <= i < s.len() implies entries_view(s)[i] == (s[i].0.view(), s[i].1.view()) by {
            if i > 0 {
                assert(entries_view(s)[i] == entries_view(s.drop_first())[i - 1]);
                assert(s.drop_first()[i - 1] == s[i]);
            }
        }
    }
}

/// Every numeric leaf of a field list lies within its kind's range.
pub open spec fn fields_wf(s: Seq<FieldV>) -> bool
    decreases s,
{
    if s.len() == 0 {
        true
    } else {
        s[0].value.wf() && fields_wf(s.drop_first())
    }
}

/// Every numeric leaf of a value list lies within its kind's range.
pub open spec fn values_wf(s: Seq<ValV>) -> bool
    decreases s,
{
    if s.len() == 0 {
        true
    } else {
        s[0].wf() && values_wf(s.drop_first())
    }
}

/// Every numeric leaf of an entry list lies within its kind's range.
pub open spec fn entries_wf(s: Seq<(ValV, ValV)>) -> bool
    decreases s,
{
    if s.len() == 0 {
        true
    } else {
        s[0].0.wf() && s[0].1.wf() && entries_wf(s.drop_first())
    }
}

pub proof fn lemma_fields_wf_index(s: Seq<FieldV>)
    ensures
        fields_wf(s) <==> (forall|i: int| 0 <= i < s.len() ==> s[i].value.wf()),
    decreases s,
{
    if s.len() > 0 {
        lemma_fields_wf_index(s.drop_first());
        assert(forall|i: int| 1 <= i < s.len() ==> s.drop_first()[i - 1] == s[i]);
        if forall|i: int| 0 <= i < s.len() ==> s[i].value.wf() {
            assert(forall|i: int| 0 <= i < s.drop_first().len() ==> s.drop_first()[i].value.wf());
        }
    }
}

pub proof fn lemma_values_wf_index(s: Seq<ValV>)
    ensures
        values_wf(s) <==> (forall|i: int| 0 <= i < s.len() ==> s[i].wf()),
    decreases s,
{
    if s.len() > 0 {
        lemma_values_wf_index(s.drop_first());
        assert(forall|i: int| 1 <= i < s.len() ==> s.drop_first()[i - 1] == s[i]);
        if forall|i: int| 0 <= i < s.len() ==> s[i].wf() {
            assert(forall|i: int| 0 <= i < s.drop_first().len() ==> s.drop_first()[i].wf());
        }
    }
}

pub proof fn lemma_entries_wf_index(s: Seq<(ValV, ValV)>)
    ensures
        entries_wf(s) <==> (forall|i: int| 0 <= i < s.len() ==> s[i].0.wf() && s[i].1.wf()),
    decreases s,
{
    if s.len() > 0 {
        lemma_entries_wf_index(s.drop_first());
        assert(forall|i: int| 1 <= i < s.len() ==> s.drop_first()[i - 1] == s[i]);
        if forall|i: int| 0 <= i < s.len() ==> s[i].0.wf() && s[i].1.wf() {
            assert(forall|i: int|
                0 <= i < s.drop_first().len() ==> s.drop_first()[i].0.wf()
                    && s.drop_first()[i].1.wf());
        }
    }
}

impl PayloadV {
    /// Every numeric leaf of the payload lies within its kind's range.
    pub open spec fn wf(self) -> bool
        decreases self,
    {
        match self {
            PayloadV::Unit => true,
            PayloadV::Tuple(fields) => fields_wf(fields),
            PayloadV::Struct(fields) => fields_wf(fields),
        }
    }
}

impl ValV {
    /// Every numeric leaf of the value lies within its kind's range.
    pub open spec fn wf(self) -> bool
        decreases self,
    {
        match self {
            ValV::Bool { .. } => true,
            ValV::Num { kind, value } => kind.in_range(value),
            ValV::Text { .. } => true,
            ValV::Composite { fields, .. } => fields_wf(fields),
            ValV::List { items, .. } => values_wf(items),
            ValV::Array { items, .. } => values_wf(items),
            ValV::Mapping { entries, .. } => entries_wf(entries),
            ValV::Enum { payload, .. } => payload.wf(),
            ValV::Opaque { .. } => true,
        }
    }

    /// The type name the value dispatches under.
    pub open spec fn type_path(self) -> Seq<char> {
        match self {
            ValV::Bool { .. } => "bool"@,
            ValV::Num { kind, .. } => kind.spec_name(),
            ValV::Text { .. } => "alloc::string::String"@,
            ValV::Composite { type_path, .. } => type_path,
            ValV::List { type_path, .. } => type_path,
            ValV::Array { type_path, .. } => type_path,
            ValV::Mapping { type_path, .. } => type_path,
            ValV::Enum { type_path, .. } => type_path,
            ValV::Opaque { type_path } => type_path,
        }
    }
}

impl Value {
    /// The type name the value dispatches under.
    pub fn type_path(&self) -> (r: &str)
        ensures
            r@ == self@.type_path(),
    {
        match self {
            Value::Bool { .. } => "bool",
            Value::Num { kind, .. } => kind.name(),
            Value::Text { .. } => "alloc::string::String",
            Value::Composite { type_path, .. } => type_path.as_str(),
            Value::List { type_path, .. } => type_path.as_str(),
            Value::Array { type_path, .. } => type_path.as_str(),
            Value::Mapping { type_path, .. } => type_path.as_str(),
            Value::Enum { type_path, .. } => type_path.as_str(),
            Value::Opaque { type_path } => type_path.as_str(),
        }
    }

    /// An independently owned copy with the same view.
    pub fn duplicate(&self) -> (r: Value)
        ensures
            r@ == self@,
        decreases *self,
    {
        match self {
            Value::Bool { value } => Value::Bool { value: *value },
            Value::Num { kind, value } => Value::Num { kind: *kind, value: *value },
            Value::Text { value } => Value::Text { value: value.clone() },
            Value::Composite { kind, type_path, fields } => Value::Composite {
                kind: *kind,
                type_path: type_path.clone(),
                fields: dup_fields(fields),
            },
            Value::List { type_path, items } => Value::List {
                type_path: type_path.clone(),
                items: dup_values(items),
            },
            Value::Array { type_path, items } => Value::Array {
                type_path: type_path.clone(),
                items: dup_values(items),
            },
            Value::Mapping { type_path, entries } => Value::Mapping {
                type_path: type_path.clone(),
                entries: dup_entries(entries),
            },
            Value::Enum { type_path, variant, payload } => Value::Enum {
                type_path: type_path.clone(),
                variant: variant.clone(),
                payload: dup_payload(payload),
            },
            Value::Opaque { type_path } => Value::Opaque { type_path: type_path.clone() },
        }
    }
}

/// Whether every numeric leaf of the value lies within its kind's range,
/// decided at run time; a host-built value can be checked before it is
/// handed to the editors.
impl Value {
    pub fn well_formed(&self) -> (r: bool)
        ensures
            r == self@.wf(),
        decreases *self,
    {
        match self {
            Value::Bool { .. } => true,
            Value::Num { kind, value } => kind.min_val() <= *value && *value <= kind.max_val(),
            Value::Text { .. } => true,
            Value::Composite { fields, .. } => fields_well_formed(fields),
            Value::List { items, .. } => values_well_formed(items),
            Value::Array { items, .. } => values_well_formed(items),
            Value::Mapping { entries, .. } => entries_well_formed(entries),
            Value::Enum { payload, .. } => payload.well_formed(),
            Value::Opaque { .. } => true,
        }
    }
}

impl Payload {
    /// Whether every numeric leaf of the payload lies within its kind's
    /// range, decided at run time.
    pub fn well_formed(&self) -> (r: bool)
        ensures
            r == self@.wf(),
        decreases *self,
    {
        match self {
            Payload::Unit => true,
            Payload::Tuple(fields) => fields_well_formed(fields),
            Payload::Struct(fields) => fields_well_formed(fields),
        }
    }
}

/// Whether every field value of a composite is well formed.
pub fn fields_well_formed(fields: &Vec<FieldVal>) -> (r: bool)
    ensures
        r == fields_wf(fields_view(fields@)),
    decreases *fields,
{
    proof {
        lemma_fields_view(fields@);
        lemma_fields_wf_index(fields_view(fields@));
    }
    let mut i: usize = 0;
    while i < fields.len()
        invariant
            i <= fields@.len(),
            fields_view(fields@).len() == fields@.len(),
            forall|j: int|
                0 <= j < fields@.len() ==> #[trigger] fields_view(fields@)[j] == field_view(
                    fields@[j],
                ),
            forall|j: int| 0 <= j < i ==> (#[trigger] fields_view(fields@)[j]).value.wf(),
        decreases fields@.len() - i,
    {
        if !fields[i].value.well_formed() {
            proof {
                assert(fields_view(fields@)[i as int] == field_view(fields@[i as int]));
                assert(!fields_view(fields@)[i as int].value.wf());
                lemma_fields_wf_index(fields_view(fields@));
            }
            return false;
        }
        i += 1;
    }
    proof {
        lemma_fields_wf_index(fields_view(fields@));
    }
    true
}

/// Whether every element of an item list is well formed.
pub fn values_well_formed(items: &Vec<Value>) -> (r: bool)
    ensures
        r == values_wf(values_view(items@)),
    decreases *items,
{
    proof {
        lemma_values_view(items@);
        lemma_values_wf_index(values_view(items@));
    }
    let mut i: usize = 0;
    while i < items.len()
        invariant
            i <= items@.len(),
            values_view(items@).len() == items@.len(),
            forall|j: int|
                0 <= j < items@.len() ==> #[trigger] values_view(items@)[j] == items@[j]@,
            forall|j: int| 0 <= j < i ==> (#[trigger] values_view(items@)[j]).wf(),
        decreases items@.len() - i,
    {
        if !items[i].well_formed() {
            proof {
                assert(values_view(items@)[i as int] == items@[i as int]@);
                assert(!values_view(items@)[i as int].wf());
                lemma_values_wf_index(values_view(items@));
            }
            return false;
        }
        i += 1;
    }
    proof {
        lemma_values_wf_index(values_view(items@));
    }
    true
}

/// Whether every key and value of a map's entries is well formed.
pub fn entries_well_formed(entries: &Vec<(Value, Value)>) -> (r: bool)
    ensures
        r == entries_wf(entries_view(entries@)),
    decreases *entries,
{
    proof {
        lemma_entries_view(entries@);
        lemma_entries_wf_index(entries_view(entries@));
    }
    let mut i: usize = 0;
    while i < entries.len()
        invariant
            i <= entries@.len(),
            entries_view(entries@).len() == entries@.len(),
            forall|j: int|
                0 <= j < entries@.len() ==> #[trigger] entries_view(entries@)[j] == (entries@[j].0@,
                entries@[j].1@),
            forall|j: int|
                0 <= j < i ==> (#[trigger] entries_view(entries@)[j]).0.wf() && entries_view(
                    entries@,
                )[j].1.wf(),
        decreases entries@.len() - i,
    {
        if !entries[i].0.well_formed() || !entries[i].1.well_formed() {
            proof {
                assert(entries_view(entries@)[i as int] == (entries@[i as int].0@,
                entries@[i as int].1@));
                assert(!entries_view(entries@)[i as int].0.wf() || !entries_view(entries@)[
                    i as int].1.wf());
                lemma_entries_wf_index(entries_view(entries@));
            }
            return false;
        }
        i += 1;
    }
    proof {
        lemma_entries_wf_index(entries_view(entries@));
    }
    true
}

/// A copy of an optional field name with the same view.
pub fn dup_name(name: &Option<String>) -> (r: Option<String>)
    ensures
        name_view(r) == name_view(*name),
{
    match name {
        Some(s) => Some(s.clone()),
        None => None,
    }
}

/// A copy of a composite's fields with the same view.
pub fn dup_fields(fields: &Vec<FieldVal>) -> (r: Vec<FieldVal>)
    ensures
        fields_view(r@) == fields_view(fields@),
    decreases *fields,
{
    let mut out: Vec<FieldVal> = Vec::new();
    let mut i: usize = 0;
    while i < fields.len()
        invariant
            i <= fields@.len(),
            out@.len() == i,
            forall|j: int| 0 <= j < i ==> field_view(out@[j]) == field_view(fields@[j]),
        decreases fields@.len() - i,
    {
        let f = FieldVal { name: dup_name(&fields[i].name), value: fields[i].value.duplicate() };
        proof {
            assert(field_view(f) == field_view(fields@[i as int]));
        }
        out.push(f);
        i += 1;
    }
    proof {
        lemma_fields_view(out@);
        lemma_fields_view(fields@);
        assert(fields_view(out@) =~= fields_view(fields@));
    }
    out
}

/// A copy of an item list with the same view.
pub fn dup_values(items: &Vec<Value>) -> (r: Vec<Value>)
    ensures
        values_view(r@) == values_view(items@),
    decreases *items,
{
    let mut out: Vec<Value> = Vec::new();
    let mut i: usize = 0;
    while i < items.len()
        invariant
            i <= items@.len(),
            out@.len() == i,
            forall|j: int| 0 <= j < i ==> out@[j]@ == items@[j]@,
        decreases items@.len() - i,
    {
        let v = items[i].duplicate();
        out.push(v);
        i += 1;
    }
    proof {
        lemma_values_view(out@);
        lemma_values_view(items@);
        assert(values_view(out@) =~= values_view(items@));
    }
    out
}

/// A copy of a map's entries with the same view.
pub fn dup_entries(entries: &Vec<(Value, Value)>) -> (r: Vec<(Value, Value)>)
    ensures
        entries_view(r@) == entries_view(entries@),
    decreases *entries,
{
    let mut out: Vec<(Value, Value)> = Vec::new();
    let mut i: usize = 0;
    while i < entries.len()
        invariant
            i <= entries@.len(),
            out@.len() == i,
            forall|j: int|
                0 <= j < i ==> out@[j].0@ == entries@[j].0@ && out@[j].1@ == entries@[j].1@,
        decreases entries@.len() - i,
    {
        let p = (entries[i].0.duplicate(), entries[i].1.duplicate());
        out.push(p);
        i += 1;
    }
    proof {
        lemma_entries_view(out@);
        lemma_entries_view(entries@);
        assert(entries_view(out@) =~= entries_view(entries@));
    }
    out
}

/// A copy of an enum payload with the same view.
pub fn dup_payload(payload: &Payload) -> (r: Payload)
    ensures
        r@ == payload@,
    decreases *payload,
{
    match payload {
        Payload::Unit => Payload::Unit,
        Payload::Tuple(fields) => Payload::Tuple(dup_fields(fields)),
        Payload::Struct(fields) => Payload::Struct(dup_fields(fields)),
    }
}

} // verus!
