//! Property data structures: the resolved form of a class trait, and the
//! lazily resolved reference to a declared type.

use vstd::prelude::*;

verus! {

/// A qualified name: a namespace and a local name.
#[derive(Debug, Clone, PartialEq, Eq)]
pub struct QName {
    pub ns: Vec<u8>,
    pub name: Vec<u8>,
}

impl QName {
    /// The content of the name, as the pair of its byte strings.
    pub open spec fn key(&self) -> (Seq<u8>, Seq<u8>) {
        (self.ns@, self.name@)
    }

    pub fn new(ns: Vec<u8>, name: Vec<u8>) -> (r: Self)
        ensures
            r.key() == (ns@, name@),
    {
        QName { ns, name }
    }
}

/// Byte-string equality.
pub fn bytes_eq(a: &[u8], b: &[u8]) -> (r: bool)
    ensures
        r == (a@ == b@),
{
    if a.len() != b.len() {
        return false;
    }
    let n = a.len();
    let mut i: usize = 0;
    while i < n
        invariant
            i <= n,
            n == a@.len() == b@.len(),
            forall|k: int| 0 <= k < i ==> a@[k] == b@[k],
        decreases n - i,
    {
        if a[i] != b[i] {
            return false;
        }
        i = i + 1;
    }
    proof {
        assert(a@ =~= b@);
    }
    true
}

/// Qualified-name equality, by content.
pub fn qname_eq(a: &QName, b: &QName) -> (r: bool)
    ensures
        r == (a.key() == b.key()),
{
    let r = bytes_eq(a.ns.as_slice(), b.ns.as_slice()) && bytes_eq(a.name.as_slice(),
        b.name.as_slice());
    proof {
        if a.ns@ == b.ns@ && a.name@ == b.name@ {
            assert(a.key() == b.key());
        }
        if a.key() == b.key() {
            assert(a.key().0 == b.key().0);
            assert(a.key().1 == b.key().1);
        }
    }
    r
}

/// An index into the name table of a class registry.
pub type NameId = usize;

/// An index into the class table of a class registry.
pub type ClassId = usize;

/// A reference to a declared type: a class handle once resolved, before
/// that only the type's name. Resolution happens on first use and is
/// memoized in place; a missing class is an explicit error, never
/// silently masked.
#[derive(Debug, Clone, Copy, PartialEq, Eq, Structural)]
pub enum LazyClass {
    Class(ClassId),
    Name(NameId),
}

impl LazyClass {
    /// A reference that will be resolved on first use.
    pub fn lazy(name: NameId) -> (r: Self)
        ensures
            r == LazyClass::Name(name),
    {
        LazyClass::Name(name)
    }
}

/// One resolved class member: a method with its dispatch id, an accessor
/// pair (either half optional), or a storage slot with its declared type.
/// A `ConstSlot` is a slot that may be written only during construction.
#[derive(Debug, Clone, Copy, PartialEq, Eq, Structural)]
pub enum Property {
    Virtual { get: Option<u32>, set: Option<u32> },
    Method { disp_id: u32 },
    Slot { slot_id: u32, class: LazyClass },
    ConstSlot { slot_id: u32, class: LazyClass },
}

impl Property {
    pub fn new_method(disp_id: u32) -> (r: Self)
        ensures
            r == (Property::Method { disp_id }),
    {
        Property::Method { disp_id }
    }

    pub fn new_getter(disp_id: u32) -> (r: Self)
        ensures
            r == (Property::Virtual { get: Some(disp_id), set: None::<u32> }),
    {
        Property::Virtual { get: Some(disp_id), set: None }
    }

    pub fn new_setter(disp_id: u32) -> (r: Self)
        ensures
            r == (Property::Virtual { get: None::<u32>, set: Some(disp_id) }),
    {
        Property::Virtual { get: None, set: Some(disp_id) }
    }

    pub fn new_slot(slot_id: u32, class: LazyClass) -> (r: Self)
        ensures
            r == (Property::Slot { slot_id, class }),
    {
        Property::Slot { slot_id, class }
    }

    pub fn new_const_slot(slot_id: u32, class: LazyClass) -> (r: Self)
        ensures
            r == (Property::ConstSlot { slot_id, class }),
    {
        Property::ConstSlot { slot_id, class }
    }
}

} // verus!
