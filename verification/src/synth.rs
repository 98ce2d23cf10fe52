//! Safe default-value synthesis: build a default instance for any reachable
//! type so a newly chosen enum variant has a valid editable value before the
//! user fills it in. Zero, false or empty text for primitives, empty
//! containers for lists and maps, every slot defaulted for arrays, the first
//! declared variant for enums, every field defaulted for composites.
//! Synthesis fails explicitly when a reachable sub-type has no shape; a
//! depth budget bounds recursion through the registry, which a cyclic type
//! graph would otherwise make endless.

use vstd::prelude::*;
use vstd::string::StringExecFns;
use crate::shape::FieldShape;
use crate::shape::TypeRegistry;
use crate::shape::TypeShape;
use crate::shape::VariantData;
use crate::shape::VariantShape;
use crate::state::ProxyV;
use crate::state::VariantProxy;
use crate::value::CompositeKind;
use crate::value::FieldV;
use crate::value::FieldVal;
use crate::value::Payload;
use crate::value::PayloadV;
use crate::value::ValV;
use crate::value::Value;
use crate::value::dup_name;
use crate::value::field_view;
use crate::value::fields_view;
use crate::value::lemma_fields_view;
use crate::value::lemma_values_view;
use crate::value::name_view;
use crate::value::values_view;

verus! {

/// What synthesis yields for the type registered under `name`, given a
/// recursion budget.
pub open spec fn spec_default_of(reg: TypeRegistry, name: Seq<char>, fuel: nat) -> Option<ValV>
    decreases fuel, 3nat, 0nat,
{
    if fuel == 0 {
        None
    } else {
        match reg.spec_shape_of(name) {
            None => None,
            Some(shape) => match shape {
                TypeShape::Struct { fields } => match spec_default_fields(reg, fields@, fuel) {
                    Some(fs) => Some(
                        ValV::Composite { kind: CompositeKind::Struct, type_path: name, fields: fs },
                    ),
                    None => None,
                },
                TypeShape::TupleStruct { fields } => match spec_default_fields(
                    reg,
                    fields@,
                    fuel,
                ) {
                    Some(fs) => Some(
                        ValV::Composite {
                            kind: CompositeKind::TupleStruct,
                            type_path: name,
                            fields: fs,
                        },
                    ),
                    None => None,
                },
                TypeShape::Tuple { fields } => match spec_default_fields(reg, fields@, fuel) {
                    Some(fs) => Some(
                        ValV::Composite { kind: CompositeKind::Tuple, type_path: name, fields: fs },
                    ),
                    None => None,
                },
                TypeShape::List { .. } => Some(ValV::List { type_path: name, items: Seq::empty() }),
                TypeShape::Array { elem, len } => match spec_default_of(
                    reg,
                    elem@,
                    (fuel - 1) as nat,
                ) {
                    Some(v) => Some(
                        ValV::Array { type_path: name, items: Seq::new(len as nat, |i: int| v) },
                    ),
                    None => None,
                },
                TypeShape::Mapping { .. } => Some(
                    ValV::Mapping { type_path: name, entries: Seq::empty() },
                ),
                TypeShape::Enum { variants } => if variants@.len() == 0 {
                    None
                } else {
                    match spec_default_variant(reg, variants@[0], fuel) {
                        Some(p) => Some(
                            ValV::Enum {
                                type_path: name,
                                variant: variants@[0].name@,
                                payload: p.payload,
                            },
                        ),
                        None => None,
                    }
                },
                TypeShape::Num { kind } => Some(ValV::Num { kind, value: 0 }),
                TypeShape::Boolean => Some(ValV::Bool { value: false }),
                TypeShape::Text => Some(ValV::Text { value: Seq::empty() }),
                TypeShape::Opaque => None,
            },
        }
    }
}

/// What synthesis yields for one declared variant: the variant name and a
/// fully defaulted payload.
pub open spec fn spec_default_variant(reg: TypeRegistry, v: VariantShape, fuel: nat) -> Option<
    ProxyV,
>
    decreases fuel, 2nat, 0nat,
{
    if fuel == 0 {
        None
    } else {
        match v.data {
            VariantData::Unit => Some(ProxyV { variant: v.name@, payload: PayloadV::Unit }),
            VariantData::Tuple(fields) => match spec_default_fields(reg, fields@, fuel) {
                Some(fs) => Some(ProxyV { variant: v.name@, payload: PayloadV::Tuple(fs) }),
                None => None,
            },
            VariantData::Struct(fields) => match spec_default_fields(reg, fields@, fuel) {
                Some(fs) => Some(ProxyV { variant: v.name@, payload: PayloadV::Struct(fs) }),
                None => None,
            },
        }
    }
}

/// What synthesis yields for a list of field shapes, resolving each field's
/// type through the registry.
pub open spec fn spec_default_fields(reg: TypeRegistry, fs: Seq<FieldShape>, fuel: nat) -> Option<
    Seq<FieldV>,
>
    decreases fuel, 1nat, fs.len(),
{
    if fuel == 0 {
        None
    } else if fs.len() == 0 {
        Some(Seq::empty())
    } else {
        match spec_default_of(reg, fs[0].type_path@, (fuel - 1) as nat) {
            None => None,
            Some(v) => match spec_default_fields(reg, fs.drop_first(), fuel) {
                None => None,
                Some(rest) => Some(
                    seq![FieldV { name: name_view(fs[0].name), value: v }] + rest,
                ),
            },
        }
    }
}

/// A shape is defaultable when every type reachable from it within the
/// budget is registered and is not an opaque leaf.
pub open spec fn spec_defaultable(reg: TypeRegistry, name: Seq<char>, fuel: nat) -> bool
    decreases fuel, 3nat, 0nat,
{
    if fuel == 0 {
        false
    } else {
        match reg.spec_shape_of(name) {
            None => false,
            Some(shape) => match shape {
                TypeShape::Struct { fields } => spec_defaultable_fields(reg, fields@, fuel),
                TypeShape::TupleStruct { fields } => spec_defaultable_fields(reg, fields@, fuel),
                TypeShape::Tuple { fields } => spec_defaultable_fields(reg, fields@, fuel),
                TypeShape::List { .. } => true,
                TypeShape::Array { elem, .. } => spec_defaultable(reg, elem@, (fuel - 1) as nat),
                TypeShape::Mapping { .. } => true,
                TypeShape::Enum { variants } => variants@.len() > 0 && spec_defaultable_variant(
                    reg,
                    variants@[0],
                    fuel,
                ),
                TypeShape::Num { .. } => true,
                TypeShape::Boolean => true,
                TypeShape::Text => true,
                TypeShape::Opaque => false,
            },
        }
    }
}

/// A variant is defaultable when all its field types are.
pub open spec fn spec_defaultable_variant(reg: TypeRegistry, v: VariantShape, fuel: nat) -> bool
    decreases fuel, 2nat, 0nat,
{
    if fuel == 0 {
        false
    } else {
        match v.data {
            VariantData::Unit => true,
            VariantData::Tuple(fields) => spec_defaultable_fields(reg, fields@, fuel),
            VariantData::Struct(fields) => spec_defaultable_fields(reg, fields@, fuel),
        }
    }
}

/// A field list is defaultable when each field's type is.
pub open spec fn spec_defaultable_fields(reg: TypeRegistry, fs: Seq<FieldShape>, fuel: nat) -> bool
    decreases fuel, 1nat, fs.len(),
{
    if fuel == 0 {
        false
    } else if fs.len() == 0 {
        true
    } else {
        spec_defaultable(reg, fs[0].type_path@, (fuel - 1) as nat) && spec_defaultable_fields(
            reg,
            fs.drop_first(),
            fuel,
        )
    }
}

/// Synthesis succeeds exactly on defaultable types: a shape built purely
/// from registered, non-opaque nodes within the budget yields a default,
/// and a shape reaching an unregistered or opaque leaf yields nothing.
pub proof fn lemma_default_totality(reg: TypeRegistry, name: Seq<char>, fuel: nat)
    ensures
        spec_default_of(reg, name, fuel) is Some <==> spec_defaultable(reg, name, fuel),
    decreases fuel, 3nat, 0nat,
{
    if fuel > 0 {
        match reg.spec_shape_of(name) {
            None => {},
            Some(shape) => match shape {
                TypeShape::Struct { fields } => lemma_default_fields_totality(reg, fields@, fuel),
                TypeShape::TupleStruct { fields } => lemma_default_fields_totality(
                    reg,
                    fields@,
                    fuel,
                ),
                TypeShape::Tuple { fields } => lemma_default_fields_totality(reg, fields@, fuel),
                TypeShape::Array { elem, .. } => lemma_default_totality(
                    reg,
                    elem@,
                    (fuel - 1) as nat,
                ),
                TypeShape::Enum { variants } => {
                    if variants@.len() > 0 {
                        lemma_default_variant_totality(reg, variants@[0], fuel);
                    }
                },
                _ => {},
            },
        }
    }
}

pub proof fn lemma_default_variant_totality(reg: TypeRegistry, v: VariantShape, fuel: nat)
    ensures
        spec_default_variant(reg, v, fuel) is Some <==> spec_defaultable_variant(reg, v, fuel),
    decreases fuel, 2nat, 0nat,
{
    if fuel > 0 {
        match v.data {
            VariantData::Unit => {},
            VariantData::Tuple(fields) => lemma_default_fields_totality(reg, fields@, fuel),
            VariantData::Struct(fields) => lemma_default_fields_totality(reg, fields@, fuel),
        }
    }
}

pub proof fn lemma_default_fields_totality(reg: TypeRegistry, fs: Seq<FieldShape>, fuel: nat)
    ensures
        spec_default_fields(reg, fs, fuel) is Some <==> spec_defaultable_fields(reg, fs, fuel),
    decreases fuel, 1nat, fs.len(),
{
    if fuel > 0 && fs.len() > 0 {
        lemma_default_totality(reg, fs[0].type_path@, (fuel - 1) as nat);
        lemma_default_fields_totality(reg, fs.drop_first(), fuel);
    }
}

/// A synthesized default is well formed.
pub proof fn lemma_default_of_wf(reg: TypeRegistry, name: Seq<char>, fuel: nat)
    ensures
        spec_default_of(reg, name, fuel) matches Some(v) ==> v.wf(),
    decreases fuel, 3nat, 0nat,
{
    if fuel > 0 {
        match reg.spec_shape_of(name) {
            None => {},
            Some(shape) => match shape {
                TypeShape::Struct { fields } => lemma_default_fields_wf(reg, fields@, fuel),
                TypeShape::TupleStruct { fields } => lemma_default_fields_wf(reg, fields@, fuel),
                TypeShape::Tuple { fields } => lemma_default_fields_wf(reg, fields@, fuel),
                TypeShape::Array { elem, len } => {
                    lemma_default_of_wf(reg, elem@, (fuel - 1) as nat);
                    match spec_default_of(reg, elem@, (fuel - 1) as nat) {
                        Some(v) => {
                            crate::value::lemma_values_wf_index(Seq::new(len as nat, |i: int| v));
                        },
                        None => {},
                    }
                },
                TypeShape::Enum { variants } => {
                    if variants@.len() > 0 {
                        lemma_default_variant_wf(reg, variants@[0], fuel);
                    }
                },
                _ => {},
            },
        }
    }
}

/// A synthesized default variant's payload is well formed.
pub proof fn lemma_default_variant_wf(reg: TypeRegistry, v: VariantShape, fuel: nat)
    ensures
        spec_default_variant(reg, v, fuel) matches Some(p) ==> p.payload.wf(),
    decreases fuel, 2nat, 0nat,
{
    if fuel > 0 {
        match v.data {
            VariantData::Unit => {},
            VariantData::Tuple(fields) => lemma_default_fields_wf(reg, fields@, fuel),
            VariantData::Struct(fields) => lemma_default_fields_wf(reg, fields@, fuel),
        }
    }
}

/// Synthesized default fields are well formed.
pub proof fn lemma_default_fields_wf(reg: TypeRegistry, fs: Seq<FieldShape>, fuel: nat)
    ensures
        spec_default_fields(reg, fs, fuel) matches Some(out) ==> crate::value::fields_wf(out),
    decreases fuel, 1nat, fs.len(),
{
    if fuel > 0 && fs.len() > 0 {
        lemma_default_of_wf(reg, fs[0].type_path@, (fuel - 1) as nat);
        lemma_default_fields_wf(reg, fs.drop_first(), fuel);
        match spec_default_of(reg, fs[0].type_path@, (fuel - 1) as nat) {
            None => {},
            Some(v) => match spec_default_fields(reg, fs.drop_first(), fuel) {
                None => {},
                Some(rest) => {
                    let whole = seq![FieldV { name: name_view(fs[0].name), value: v }] + rest;
                    crate::value::lemma_fields_wf_index(rest);
                    crate::value::lemma_fields_wf_index(whole);
                    assert(forall|i: int| 1 <= i < whole.len() ==> whole[i] == rest[i - 1]);
                },
            },
        }
    }
}

/// Synthesize a default instance of the type registered under `name`, or
/// nothing when a reachable sub-type has no shape or the budget runs out.
pub fn default_of(reg: &TypeRegistry, name: &str, fuel: u64) -> (r: Option<Value>)
    ensures
        match r {
            Some(v) => spec_default_of(*reg, name@, fuel as nat) == Some(v@),
            None => spec_default_of(*reg, name@, fuel as nat) is None,
        },
    decreases fuel as nat, 3nat, 0nat,
{
    if fuel == 0 {
        return None;
    }
    let shape = match reg.shape_of(name) {
        Some(s) => s,
        None => {
            return None;
        },
    };
    match shape {
        TypeShape::Struct { fields } => {
            proof {
                assert(fields@.skip(0) =~= fields@);
            }
            match default_fields(reg, fields, 0, fuel) {
                Some(fs) => Some(
                    Value::Composite {
                        kind: CompositeKind::Struct,
                        type_path: String::from_str(name),
                        fields: fs,
                    },
                ),
                None => None,
            }
        },
        TypeShape::TupleStruct { fields } => {
            proof {
                assert(fields@.skip(0) =~= fields@);
            }
            match default_fields(reg, fields, 0, fuel) {
                Some(fs) => Some(
                    Value::Composite {
                        kind: CompositeKind::TupleStruct,
                        type_path: String::from_str(name),
                        fields: fs,
                    },
                ),
                None => None,
            }
        },
        TypeShape::Tuple { fields } => {
            proof {
                assert(fields@.skip(0) =~= fields@);
            }
            match default_fields(reg, fields, 0, fuel) {
                Some(fs) => Some(
                    Value::Composite {
                        kind: CompositeKind::Tuple,
                        type_path: String::from_str(name),
                        fields: fs,
                    },
                ),
                None => None,
            }
        },
        TypeShape::List { .. } => Some(
            Value::List { type_path: String::from_str(name), items: Vec::new() },
        ),
        TypeShape::Array { elem, len } => {
            let item = match default_of(reg, elem.as_str(), fuel - 1) {
                Some(v) => v,
                None => {
                    return None;
                },
            };
            let n: usize = *len;
            let mut items: Vec<Value> = Vec::new();
            let mut i: usize = 0;
            while i < n
                invariant
                    i <= n,
                    items@.len() == i,
                    forall|j: int| 0 <= j < i ==> items@[j]@ == item@,
                decreases n - i,
            {
                items.push(item.duplicate());
                i += 1;
            }
            proof {
                lemma_values_view(items@);
                assert(values_view(items@) =~= Seq::new(n as nat, |j: int| item@));
            }
            Some(Value::Array { type_path: String::from_str(name), items })
        },
        TypeShape::Mapping { .. } => Some(
            Value::Mapping { type_path: String::from_str(name), entries: Vec::new() },
        ),
        TypeShape::Enum { variants } => {
            if variants.len() == 0 {
                return None;
            }
            match default_variant_value(reg, &variants[0], fuel) {
                Some(p) => Some(
                    Value::Enum {
                        type_path: String::from_str(name),
                        variant: p.variant,
                        payload: p.payload,
                    },
                ),
                None => None,
            }
        },
        TypeShape::Num { kind } => Some(Value::Num { kind: *kind, value: 0 }),
        TypeShape::Boolean => Some(Value::Bool { value: false }),
        TypeShape::Text => Some(Value::Text { value: String::new() }),
        TypeShape::Opaque => None,
    }
}

/// Synthesize the proxy for one declared variant: the variant name with a
/// fully defaulted payload.
pub fn default_variant_value(reg: &TypeRegistry, v: &VariantShape, fuel: u64) -> (r: Option<
    VariantProxy,
>)
    ensures
        match r {
            Some(p) => spec_default_variant(*reg, *v, fuel as nat) == Some(p@),
            None => spec_default_variant(*reg, *v, fuel as nat) is None,
        },
    decreases fuel as nat, 2nat, 0nat,
{
    if fuel == 0 {
        return None;
    }
    match &v.data {
        VariantData::Unit => Some(VariantProxy { variant: v.name.clone(), payload: Payload::Unit }),
        VariantData::Tuple(fields) => {
            proof {
                assert(fields@.skip(0) =~= fields@);
            }
            match default_fields(reg, fields, 0, fuel) {
                Some(fs) => Some(
                    VariantProxy { variant: v.name.clone(), payload: Payload::Tuple(fs) },
                ),
                None => None,
            }
        },
        VariantData::Struct(fields) => {
            proof {
                assert(fields@.skip(0) =~= fields@);
            }
            match default_fields(reg, fields, 0, fuel) {
                Some(fs) => Some(
                    VariantProxy { variant: v.name.clone(), payload: Payload::Struct(fs) },
                ),
                None => None,
            }
        },
    }
}

/// Synthesize defaults for the field shapes from index `from` on.
fn default_fields(reg: &TypeRegistry, fs: &Vec<FieldShape>, from: usize, fuel: u64) -> (r: Option<
    Vec<FieldVal>,
>)
    requires
        from <= fs@.len(),
    ensures
        match r {
            Some(out) => spec_default_fields(*reg, fs@.skip(from as int), fuel as nat) == Some(
                fields_view(out@),
            ),
            None => spec_default_fields(*reg, fs@.skip(from as int), fuel as nat) is None,
        },
    decreases fuel as nat, 1nat, fs@.len() - from,
{
    if fuel == 0 {
        return None;
    }
    if from == fs.len() {
        proof {
            assert(fs@.skip(from as int) =~= Seq::<FieldShape>::empty());
        }
        let out: Vec<FieldVal> = Vec::new();
        proof {
            assert(fields_view(out@) =~= Seq::<FieldV>::empty());
        }
        return Some(out);
    }
    proof {
        assert(fs@.skip(from as int)[0] == fs@[from as int]);
        assert(fs@.skip(from as int).drop_first() =~= fs@.skip(from + 1 as int));
    }
    let v = match default_of(reg, fs[from].type_path.as_str(), fuel - 1) {
        Some(v) => v,
        None => {
            return None;
        },
    };
    let rest = match default_fields(reg, fs, from + 1, fuel) {
        Some(r) => r,
        None => {
            return None;
        },
    };
    let mut out: Vec<FieldVal> = Vec::new();
    let first = FieldVal { name: dup_name(&fs[from].name), value: v };
    let ghost firstv = field_view(first);
    out.push(first);
    let mut rest = rest;
    let ghost rest_seq = rest@;
    let ghost restv = fields_view(rest@);
    out.append(&mut rest);
    proof {
        lemma_fields_view(out@);
        lemma_fields_view(rest_seq);
        assert(out@.len() == 1 + rest_seq.len());
        assert(out@[0] == first);
        assert(forall|j: int| 1 <= j < out@.len() ==> out@[j] == rest_seq[j - 1]);
        assert(fields_view(out@) =~= seq![firstv] + restv);
    }
    Some(out)
}

} // verus!
