//! The editor table: a mapping from type name to the editor registered for
//! it. Lookup is total: an unregistered name falls back to the generic
//! shape-driven editor, so rendering never fails for want of an editor.

use vstd::prelude::*;
use crate::assoc::assoc_find;
use crate::assoc::assoc_get;
use crate::assoc::assoc_set;
use crate::assoc::distinct_keys;
use crate::shape::NumKind;

verus! {

/// Which editor renders a value: a concrete leaf editor, the inline editor
/// of a variant under construction, or the generic shape dispatcher.
#[derive(Clone, Copy, Debug, PartialEq, Eq, Structural)]
pub enum EditorKind {
    Bool,
    Num(NumKind),
    Text,
    VariantProxy,
    Reflect,
}

/// The type name the variant-construction proxy dispatches under.
pub fn proxy_type_path() -> (r: &'static str)
    ensures
        r@ == spec_proxy_type_path(),
{
    "spyglass::editors::VariantProxy"
}

/// The type name the variant-construction proxy dispatches under.
pub open spec fn spec_proxy_type_path() -> Seq<char> {
    "spyglass::editors::VariantProxy"@
}

/// The editors seeded at initialization: every primitive numeric width,
/// boolean, text, and the variant-construction proxy.
pub open spec fn seeded_editor(k: Seq<char>) -> Option<EditorKind> {
    if k == "bool"@ {
        Some(EditorKind::Bool)
    } else if k == "i8"@ {
        Some(EditorKind::Num(NumKind::I8))
    } else if k == "i16"@ {
        Some(EditorKind::Num(NumKind::I16))
    } else if k == "i32"@ {
        Some(EditorKind::Num(NumKind::I32))
    } else if k == "i64"@ {
        Some(EditorKind::Num(NumKind::I64))
    } else if k == "isize"@ {
        Some(EditorKind::Num(NumKind::Isize))
    } else if k == "u8"@ {
        Some(EditorKind::Num(NumKind::U8))
    } else if k == "u16"@ {
        Some(EditorKind::Num(NumKind::U16))
    } else if k == "u32"@ {
        Some(EditorKind::Num(NumKind::U32))
    } else if k == "u64"@ {
        Some(EditorKind::Num(NumKind::U64))
    } else if k == "usize"@ {
        Some(EditorKind::Num(NumKind::Usize))
    } else if k == "alloc::string::String"@ {
        Some(EditorKind::Text)
    } else if k == spec_proxy_type_path() {
        Some(EditorKind::VariantProxy)
    } else {
        None
    }
}

/// The table of registered editors, keyed by type name.
pub struct ReprEditors {
    pub editors: Vec<(String, EditorKind)>,
}

impl ReprEditors {
    /// Names are registered at most once.
    pub open spec fn wf(self) -> bool {
        distinct_keys(self.editors@)
    }

    /// The editor registered under `name`, if any.
    pub open spec fn spec_lookup(self, name: Seq<char>) -> Option<EditorKind> {
        assoc_get(self.editors@, name)
    }

    /// What `get` returns: the registered editor, or the generic reflective
    /// editor when none is registered.
    pub open spec fn spec_get(self, name: Seq<char>) -> EditorKind {
        match self.spec_lookup(name) {
            Some(k) => k,
            None => EditorKind::Reflect,
        }
    }

    /// Register or overwrite the editor for a type name.
    pub fn register(&mut self, name: String, kind: EditorKind)
        requires
            old(self).wf(),
        ensures
            final(self).wf(),
            forall|k: Seq<char>|
                final(self).spec_lookup(k) == if k == name@ {
                    Some(kind)
                } else {
                    old(self).spec_lookup(k)
                },
    {
        assoc_set(&mut self.editors, name, kind);
    }

    /// Get an editor for a type based on its name: the registered editor,
    /// or the generic reflective one if none exists. Never fails.
    pub fn get(&self, name: &str) -> (r: EditorKind)
        ensures
            r == self.spec_get(name@),
    {
        match assoc_find(&self.editors, name) {
            Some(k) => *k,
            None => EditorKind::Reflect,
        }
    }
}

impl Default for ReprEditors {
    /// The table seeded with the builtin editors.
    fn default() -> (r: ReprEditors)
        ensures
            r.wf(),
            forall|k: Seq<char>| r.spec_lookup(k) == seeded_editor(k),
    {
        let mut r = ReprEditors { editors: Vec::new() };
        proof {
            assert forall|k: Seq<char>| r.spec_lookup(k) is None by {
                assert(r.editors@.len() == 0);
            }
        }
        r.register(String::from_str(proxy_type_path()), EditorKind::VariantProxy);
        r.register(String::from_str("alloc::string::String"), EditorKind::Text);
        r.register(String::from_str("usize"), EditorKind::Num(NumKind::Usize));
        r.register(String::from_str("u64"), EditorKind::Num(NumKind::U64));
        r.register(String::from_str("u32"), EditorKind::Num(NumKind::U32));
        r.register(String::from_str("u16"), EditorKind::Num(NumKind::U16));
        r.register(String::from_str("u8"), EditorKind::Num(NumKind::U8));
        r.register(String::from_str("isize"), EditorKind::Num(NumKind::Isize));
        r.register(String::from_str("i64"), EditorKind::Num(NumKind::I64));
        r.register(String::from_str("i32"), EditorKind::Num(NumKind::I32));
        r.register(String::from_str("i16"), EditorKind::Num(NumKind::I16));
        r.register(String::from_str("i8"), EditorKind::Num(NumKind::I8));
        r.register(String::from_str("bool"), EditorKind::Bool);
        r
    }
}

} // verus!
