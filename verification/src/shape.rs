//! Static descriptions of reachable types and the registry that maps a type
//! name to its shape. A shape lookup either yields complete metadata or
//! fails explicitly; there is no partial shape.

use vstd::prelude::*;
use crate::assoc::assoc_find;
use crate::assoc::assoc_get;
use crate::assoc::assoc_set;
use crate::assoc::distinct_keys;

verus! {

/// The width and signedness of a numeric leaf. The pointer-sized kinds are
/// modeled at 64 bits.
#[derive(Clone, Copy, Debug, PartialEq, Eq, Structural)]
pub enum NumKind {
    I8,
    I16,
    I32,
    I64,
    Isize,
    U8,
    U16,
    U32,
    U64,
    Usize,
}

impl NumKind {
    /// The smallest value of the kind.
    pub open spec fn spec_min(self) -> int {
        match self {
            NumKind::I8 => -0x80,
            NumKind::I16 => -0x8000,
            NumKind::I32 => -0x80000000,
            NumKind::I64 => -0x8000000000000000,
            NumKind::Isize => -0x8000000000000000,
            _ => 0,
        }
    }

    /// The largest value of the kind.
    pub open spec fn spec_max(self) -> int {
        match self {
            NumKind::I8 => 0x7f,
            NumKind::I16 => 0x7fff,
            NumKind::I32 => 0x7fffffff,
            NumKind::I64 => 0x7fffffffffffffff,
            NumKind::Isize => 0x7fffffffffffffff,
            NumKind::U8 => 0xff,
            NumKind::U16 => 0xffff,
            NumKind::U32 => 0xffffffff,
            NumKind::U64 => 0xffffffffffffffff,
            NumKind::Usize => 0xffffffffffffffff,
        }
    }

    /// `v` lies within the kind's range.
    pub open spec fn in_range(self, v: int) -> bool {
        self.spec_min() <= v <= self.spec_max()
    }

    pub fn min_val(&self) -> (r: i128)
        ensures
            r as int == self.spec_min(),
    {
        match self {
            NumKind::I8 => -0x80,
            NumKind::I16 => -0x8000,
            NumKind::I32 => -0x80000000,
            NumKind::I64 => -0x8000000000000000,
            NumKind::Isize => -0x8000000000000000,
            _ => 0,
        }
    }

    pub fn max_val(&self) -> (r: i128)
        ensures
            r as int == self.spec_max(),
    {
        match self {
            NumKind::I8 => 0x7f,
            NumKind::I16 => 0x7fff,
            NumKind::I32 => 0x7fffffff,
            NumKind::I64 => 0x7fffffffffffffff,
            NumKind::Isize => 0x7fffffffffffffff,
            NumKind::U8 => 0xff,
            NumKind::U16 => 0xffff,
            NumKind::U32 => 0xffffffff,
            NumKind::U64 => 0xffffffffffffffff,
            NumKind::Usize => 0xffffffffffffffff,
        }
    }

    /// The type name the kind is registered under.
    pub open spec fn spec_name(self) -> Seq<char> {
        match self {
            NumKind::I8 => "i8"@,
            NumKind::I16 => "i16"@,
            NumKind::I32 => "i32"@,
            NumKind::I64 => "i64"@,
            NumKind::Isize => "isize"@,
            NumKind::U8 => "u8"@,
            NumKind::U16 => "u16"@,
            NumKind::U32 => "u32"@,
            NumKind::U64 => "u64"@,
            NumKind::Usize => "usize"@,
        }
    }

    pub fn name(&self) -> (r: &'static str)
        ensures
            r@ == self.spec_name(),
    {
        match self {
            NumKind::I8 => "i8",
            NumKind::I16 => "i16",
            NumKind::I32 => "i32",
            NumKind::I64 => "i64",
            NumKind::Isize => "isize",
            NumKind::U8 => "u8",
            NumKind::U16 => "u16",
            NumKind::U32 => "u32",
            NumKind::U64 => "u64",
            NumKind::Usize => "usize",
        }
    }
}

/// One field of a composite shape: an optional field name and the name of
/// the field's type, to be resolved through the registry.
#[derive(Clone, Debug, PartialEq, Eq)]
pub struct FieldShape {
    pub name: Option<String>,
    pub type_path: String,
}

/// The payload of one enum variant.
#[derive(Clone, Debug, PartialEq, Eq)]
pub enum VariantData {
    Unit,
    Tuple(Vec<FieldShape>),
    Struct(Vec<FieldShape>),
}

/// One declared enum variant.
#[derive(Clone, Debug, PartialEq, Eq)]
pub struct VariantShape {
    pub name: String,
    pub data: VariantData,
}

/// The structural description of a type, as the registry reports it.
#[derive(Clone, Debug, PartialEq, Eq)]
pub enum TypeShape {
    Struct { fields: Vec<FieldShape> },
    TupleStruct { fields: Vec<FieldShape> },
    Tuple { fields: Vec<FieldShape> },
    List { elem: String },
    Array { elem: String, len: usize },
    Mapping { key: String, value: String },
    Enum { variants: Vec<VariantShape> },
    Num { kind: NumKind },
    Boolean,
    Text,
    Opaque,
}

/// The type registry: maps a type name to its shape. Lookup is idempotent
/// and side-effect-free; an unknown name fails explicitly.
pub struct TypeRegistry {
    pub entries: Vec<(String, TypeShape)>,
}

impl TypeRegistry {
    /// Names are registered at most once.
    pub open spec fn wf(self) -> bool {
        distinct_keys(self.entries@)
    }

    /// The shape registered under `name`, if any.
    pub open spec fn spec_shape_of(self, name: Seq<char>) -> Option<TypeShape> {
        assoc_get(self.entries@, name)
    }

    /// An empty registry.
    pub fn new() -> (r: TypeRegistry)
        ensures
            r.wf(),
            forall|k: Seq<char>| r.spec_shape_of(k) is None,
    {
        let r = TypeRegistry { entries: Vec::new() };
        proof {
            assert forall|k: Seq<char>| r.spec_shape_of(k) is None by {
                assert(r.entries@.len() == 0);
            }
        }
        r
    }

    /// Register or overwrite the shape of a type name.
    pub fn register(&mut self, name: String, shape: TypeShape)
        requires
            old(self).wf(),
        ensures
            final(self).wf(),
            forall|k: Seq<char>|
                final(self).spec_shape_of(k) == if k == name@ {
                    Some(shape)
                } else {
                    old(self).spec_shape_of(k)
                },
    {
        assoc_set(&mut self.entries, name, shape);
    }

    /// The structural description of the named type, or nothing when the
    /// type is unknown.
    pub fn shape_of(&self, name: &str) -> (r: Option<&TypeShape>)
        ensures
            match r {
                Some(s) => self.spec_shape_of(name@) == Some(*s),
                None => self.spec_shape_of(name@) is None,
            },
    {
        assoc_find(&self.entries, name)
    }
}

} // verus!
