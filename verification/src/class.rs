//! Classes and trait resolution: each class's virtual table is the
//! linearization of its own declared traits over its superclass's resolved
//! table. A declared method or accessor with the same qualified name as an
//! inherited one overrides it, reusing the inherited dispatch slot; a
//! kind mismatch is a fatal "incompatible override" error. Interfaces
//! contribute no storage: they are an obligation checked when the class's
//! table is resolved. Resolution is memoized per class.

use vstd::prelude::*;
use crate::property::{QName, NameId, ClassId, LazyClass, Property, qname_eq};

verus! {

/// One declared class member, before resolution.
#[derive(Debug, Clone, Copy, PartialEq, Eq, Structural)]
pub struct TraitDecl {
    pub name: NameId,
    pub kind: TraitKind,
}

/// The kind of a declared member. Methods and accessors carry an index
/// into the method-body table; slots carry their declared type's name,
/// resolved lazily.
#[derive(Debug, Clone, Copy, PartialEq, Eq, Structural)]
pub enum TraitKind {
    Method { method: usize },
    Getter { method: usize },
    Setter { method: usize },
    Slot { declared_type: Option<NameId> },
    ConstSlot { declared_type: Option<NameId> },
}

/// A class definition: its qualified name, an optional superclass, the
/// interfaces it claims to implement, its attributes, and its declared
/// instance traits.
#[derive(Debug, Clone)]
pub struct ClassDef {
    pub name: NameId,
    pub super_class: Option<ClassId>,
    pub interfaces: Vec<ClassId>,
    pub is_final: bool,
    pub is_sealed: bool,
    pub is_interface: bool,
    pub instance_traits: Vec<TraitDecl>,
}

/// A resolved virtual table: the properties by name, the dispatch table
/// from dispatch id to method body, and the number of storage slots an
/// instance carries.
#[derive(Debug, Clone, PartialEq, Eq)]
pub struct VTable {
    pub entries: Vec<(NameId, Property)>,
    pub methods: Vec<usize>,
    pub n_slots: u32,
}

/// The spec-level form of a virtual table: its entries, its dispatch
/// table, and its slot count.
pub type VtS = (Seq<(NameId, Property)>, Seq<usize>, u32);

impl VTable {
    pub open spec fn view_vt(&self) -> VtS {
        (self.entries@, self.methods@, self.n_slots)
    }

    pub fn empty() -> (r: Self)
        ensures
            r.view_vt() == empty_vt(),
    {
        let r = VTable { entries: Vec::new(), methods: Vec::new(), n_slots: 0 };
        proof {
            assert(r.view_vt().0 =~= empty_vt().0);
            assert(r.view_vt().1 =~= empty_vt().1);
        }
        r
    }
}

/// The table a class with no superclass starts from.
pub open spec fn empty_vt() -> VtS {
    (Seq::<(NameId, Property)>::empty(), Seq::<usize>::empty(), 0u32)
}

/// A construction-time class error, with the names needed to diagnose it.
#[derive(Debug, Clone, Copy, PartialEq, Eq, Structural)]
pub enum ClassError {
    /// The class index does not exist.
    NoSuchClass { class: ClassId },
    /// A class's superclass chain does not end: a class at or above its
    /// own position in the registration order.
    SuperclassCycle { class: NameId },
    /// A declared member clashes in kind with the inherited member of the
    /// same qualified name.
    IncompatibleOverride { class: NameId, trait_name: NameId },
    /// The class declares an interface but lacks one of its methods.
    InterfaceNotImplemented { class: NameId, interface: NameId, method: NameId },
    /// The class names a non-interface in its interface list.
    NotAnInterface { class: NameId, interface: NameId },
    /// The dispatch or slot id space overflowed.
    TooManyMembers { class: NameId },
    /// A declared type's name is not a registered class.
    NoSuchType { name: NameId },
}

/// The index of the first entry with the given name, or -1.
pub open spec fn spec_find_idx(entries: Seq<(NameId, Property)>, name: NameId) -> int
    decreases entries.len(),
{
    if entries.len() == 0 {
        -1
    } else if entries[0].0 == name {
        0
    } else {
        let r = spec_find_idx(entries.drop_first(), name);
        if r < 0 {
            -1
        } else {
            r + 1
        }
    }
}

pub proof fn lemma_find_idx_char(entries: Seq<(NameId, Property)>, name: NameId, i: int)
    requires
        0 <= i < entries.len(),
        entries[i].0 == name,
        forall|k: int| 0 <= k < i ==> (#[trigger] entries[k]).0 != name,
    ensures
        spec_find_idx(entries, name) == i,
    decreases entries.len(),
{
    if i > 0 {
        lemma_find_idx_char(entries.drop_first(), name, i - 1);
    }
}

pub proof fn lemma_find_idx_none(entries: Seq<(NameId, Property)>, name: NameId)
    requires
        forall|k: int| 0 <= k < entries.len() ==> (#[trigger] entries[k]).0 != name,
    ensures
        spec_find_idx(entries, name) == -1,
    decreases entries.len(),
{
    if entries.len() > 0 {
        lemma_find_idx_none(entries.drop_first(), name);
    }
}

/// `spec_find_idx` returns either -1 or a valid index bearing the name.
pub proof fn lemma_find_idx_valid(entries: Seq<(NameId, Property)>, name: NameId)
    ensures
        ({
            let r = spec_find_idx(entries, name);
            &&& -1 <= r < entries.len()
            &&& r >= 0 ==> entries[r].0 == name
            &&& r == -1 ==> forall|k: int| 0 <= k < entries.len()
                ==> (#[trigger] entries[k]).0 != name
        }),
    decreases entries.len(),
{
    if entries.len() > 0 && entries[0].0 != name {
        lemma_find_idx_valid(entries.drop_first(), name);
        let r = spec_find_idx(entries.drop_first(), name);
        if r == -1 {
            assert forall|k: int| 0 <= k < entries.len() implies
                (#[trigger] entries[k]).0 != name by {
                if k > 0 {
                    assert(entries.drop_first()[k - 1] == entries[k]);
                }
            }
        } else {
            assert(entries.drop_first()[r] == entries[r + 1]);
        }
    }
}

/// Finds the index of a name's entry in a table.
pub fn find_prop_idx(entries: &Vec<(NameId, Property)>, name: NameId) -> (r: Option<usize>)
    ensures
        match r {
            Some(i) => spec_find_idx(entries@, name) == i,
            None => spec_find_idx(entries@, name) == -1,
        },
{
    let n = entries.len();
    let mut i: usize = 0;
    while i < n
        invariant
            i <= n,
            n == entries@.len(),
            forall|k: int| 0 <= k < i ==> (#[trigger] entries@[k]).0 != name,
        decreases n - i,
    {
        if entries[i].0 == name {
            proof {
                lemma_find_idx_char(entries@, name, i as int);
            }
            return Some(i);
        }
        i = i + 1;
    }
    proof {
        lemma_find_idx_none(entries@, name);
    }
    None
}

/// Every dispatch and slot id a table's properties mention is within the
/// table's method table and slot count.
pub open spec fn vt_wf(v: VtS) -> bool {
    forall|k: int| 0 <= k < v.0.len() ==> match (#[trigger] v.0[k]).1 {
        Property::Method { disp_id } => disp_id < v.1.len(),
        Property::Virtual { get, set } => {
            &&& (get is Some ==> get.unwrap() < v.1.len())
            &&& (set is Some ==> set.unwrap() < v.1.len())
        },
        Property::Slot { slot_id, .. } => slot_id < v.2,
        Property::ConstSlot { slot_id, .. } => slot_id < v.2,
    }
}

/// The type reference a slot declaration carries.
pub open spec fn spec_lazy_of(declared_type: Option<NameId>, any: NameId) -> LazyClass {
    match declared_type {
        Some(n) => LazyClass::Name(n),
        None => LazyClass::Name(any),
    }
}

/// One declared trait applied over a table: a fresh name is appended with
/// fresh ids; a method or accessor redeclaring an inherited name overrides
/// it in its inherited dispatch slot; any other redeclaration is an
/// incompatible override. `class_name` and `any_name` are the declaring
/// class's name and the name id standing for the unconstrained type.
pub open spec fn spec_apply_trait(v: VtS, t: TraitDecl, class_name: NameId, any_name: NameId)
    -> Result<VtS, ClassError> {
    let idx = spec_find_idx(v.0, t.name);
    if v.1.len() >= 0xFFFF_FFFF || v.2 >= 0xFFFF_FFFF {
        Err(ClassError::TooManyMembers { class: class_name })
    } else if idx < 0 {
        match t.kind {
            TraitKind::Method { method } => Ok((
                v.0.push((t.name, Property::Method { disp_id: v.1.len() as u32 })),
                v.1.push(method), v.2)),
            TraitKind::Getter { method } => Ok((
                v.0.push((t.name, Property::Virtual { get: Some(v.1.len() as u32),
                    set: None })),
                v.1.push(method), v.2)),
            TraitKind::Setter { method } => Ok((
                v.0.push((t.name, Property::Virtual { get: None,
                    set: Some(v.1.len() as u32) })),
                v.1.push(method), v.2)),
            TraitKind::Slot { declared_type } => Ok((
                v.0.push((t.name, Property::Slot { slot_id: v.2,
                    class: spec_lazy_of(declared_type, any_name) })),
                v.1, (v.2 + 1) as u32)),
            TraitKind::ConstSlot { declared_type } => Ok((
                v.0.push((t.name, Property::ConstSlot { slot_id: v.2,
                    class: spec_lazy_of(declared_type, any_name) })),
                v.1, (v.2 + 1) as u32)),
        }
    } else {
        let p = v.0[idx].1;
        match t.kind {
            TraitKind::Method { method } => match p {
                Property::Method { disp_id } => Ok((v.0, v.1.update(disp_id as int, method),
                    v.2)),
                _ => Err(ClassError::IncompatibleOverride { class: class_name,
                    trait_name: t.name }),
            },
            TraitKind::Getter { method } => match p {
                Property::Virtual { get: Some(g), set } => Ok((v.0,
                    v.1.update(g as int, method), v.2)),
                Property::Virtual { get: None, set } => Ok((
                    v.0.update(idx, (t.name, Property::Virtual {
                        get: Some(v.1.len() as u32), set })),
                    v.1.push(method), v.2)),
                _ => Err(ClassError::IncompatibleOverride { class: class_name,
                    trait_name: t.name }),
            },
            TraitKind::Setter { method } => match p {
                Property::Virtual { get, set: Some(s) } => Ok((v.0,
                    v.1.update(s as int, method), v.2)),
                Property::Virtual { get, set: None } => Ok((
                    v.0.update(idx, (t.name, Property::Virtual { get,
                        set: Some(v.1.len() as u32) })),
                    v.1.push(method), v.2)),
                _ => Err(ClassError::IncompatibleOverride { class: class_name,
                    trait_name: t.name }),
            },
            _ => Err(ClassError::IncompatibleOverride { class: class_name,
                trait_name: t.name }),
        }
    }
}

/// A class's declared traits folded over a base table, first to last.
pub open spec fn spec_apply_traits(v: VtS, ts: Seq<TraitDecl>, class_name: NameId,
    any_name: NameId) -> Result<VtS, ClassError>
    decreases ts.len(),
{
    if ts.len() == 0 {
        Ok(v)
    } else {
        match spec_apply_trait(v, ts[0], class_name, any_name) {
            Ok(v2) => spec_apply_traits(v2, ts.drop_first(), class_name, any_name),
            Err(e) => Err(e),
        }
    }
}

/// Whether a resolved table satisfies one interface member: the name must
/// be present with the matching concrete kind.
pub open spec fn spec_iface_member_ok(v: VtS, t: TraitDecl) -> bool {
    let idx = spec_find_idx(v.0, t.name);
    idx >= 0 && match t.kind {
        TraitKind::Method { .. } => v.0[idx].1 is Method,
        TraitKind::Getter { .. } => match v.0[idx].1 {
            Property::Virtual { get, .. } => get is Some,
            _ => false,
        },
        TraitKind::Setter { .. } => match v.0[idx].1 {
            Property::Virtual { set, .. } => set is Some,
            _ => false,
        },
        _ => true,
    }
}

/// The first interface member the table fails to provide, if any.
pub open spec fn spec_iface_missing(v: VtS, ts: Seq<TraitDecl>) -> Option<NameId>
    decreases ts.len(),
{
    if ts.len() == 0 {
        None
    } else if !spec_iface_member_ok(v, ts[0]) {
        Some(ts[0].name)
    } else {
        spec_iface_missing(v, ts.drop_first())
    }
}

/// The interface obligations of a class against its resolved table,
/// checked interface by interface.
pub open spec fn spec_check_ifaces(classes: Seq<ClassDef>, v: VtS, ifaces: Seq<ClassId>,
    class_name: NameId) -> Result<VtS, ClassError>
    decreases ifaces.len(),
{
    if ifaces.len() == 0 {
        Ok(v)
    } else if !(0 <= ifaces[0] < classes.len()) {
        Err(ClassError::NoSuchClass { class: ifaces[0] })
    } else if !classes[ifaces[0] as int].is_interface {
        Err(ClassError::NotAnInterface { class: class_name,
            interface: classes[ifaces[0] as int].name })
    } else {
        match spec_iface_missing(v, classes[ifaces[0] as int].instance_traits@) {
            Some(m) => Err(ClassError::InterfaceNotImplemented { class: class_name,
                interface: classes[ifaces[0] as int].name, method: m }),
            None => spec_check_ifaces(classes, v, ifaces.drop_first(), class_name),
        }
    }
}

/// The resolved table of the class at `id`: the superclass's resolved
/// table (the superclass always resolved first), overlaid with the class's
/// own traits, then held to its interface obligations.
pub open spec fn spec_resolve(classes: Seq<ClassDef>, id: int, any_name: NameId)
    -> Result<VtS, ClassError>
    decreases id,
{
    if !(0 <= id < classes.len()) {
        Err(ClassError::NoSuchClass { class: id as usize })
    } else {
        let c = classes[id];
        let base = match c.super_class {
            None => Ok(empty_vt()),
            Some(s) => if s < id {
                spec_resolve(classes, s as int, any_name)
            } else {
                Err(ClassError::SuperclassCycle { class: c.name })
            },
        };
        match base {
            Err(e) => Err(e),
            Ok(b) => match spec_apply_traits(b, c.instance_traits@, c.name, any_name) {
                Err(e) => Err(e),
                Ok(v) => spec_check_ifaces(classes, v, c.interfaces@, c.name),
            },
        }
    }
}

/// Applying one trait keeps every id in the table valid.
pub proof fn lemma_apply_trait_wf(v: VtS, t: TraitDecl, class_name: NameId, any_name: NameId)
    requires
        vt_wf(v),
    ensures
        match spec_apply_trait(v, t, class_name, any_name) {
            Ok(v2) => vt_wf(v2),
            Err(_) => true,
        },
{
    lemma_find_idx_valid(v.0, t.name);
}

/// Applying a run of traits keeps the table valid.
pub proof fn lemma_apply_traits_wf(v: VtS, ts: Seq<TraitDecl>, class_name: NameId,
    any_name: NameId)
    requires
        vt_wf(v),
    ensures
        match spec_apply_traits(v, ts, class_name, any_name) {
            Ok(v2) => vt_wf(v2),
            Err(_) => true,
        },
    decreases ts.len(),
{
    if ts.len() > 0 {
        lemma_apply_trait_wf(v, ts[0], class_name, any_name);
        match spec_apply_trait(v, ts[0], class_name, any_name) {
            Ok(v2) => lemma_apply_traits_wf(v2, ts.drop_first(), class_name, any_name),
            Err(_) => {},
        }
    }
}

/// The interface check never changes the table it approves.
pub proof fn lemma_check_ifaces_result(classes: Seq<ClassDef>, v: VtS, ifaces: Seq<ClassId>,
    class_name: NameId)
    ensures
        match spec_check_ifaces(classes, v, ifaces, class_name) {
            Ok(v2) => v2 == v,
            Err(_) => true,
        },
    decreases ifaces.len(),
{
    if ifaces.len() > 0 {
        lemma_check_ifaces_result(classes, v, ifaces.drop_first(), class_name);
    }
}

/// A resolved table is well formed.
pub proof fn lemma_resolve_wf(classes: Seq<ClassDef>, id: int, any_name: NameId)
    ensures
        match spec_resolve(classes, id, any_name) {
            Ok(v) => vt_wf(v),
            Err(_) => true,
        },
    decreases id,
{
    if 0 <= id < classes.len() {
        let c = classes[id];
        match c.super_class {
            None => {
                lemma_apply_traits_wf(empty_vt(), c.instance_traits@, c.name, any_name);
                match spec_apply_traits(empty_vt(), c.instance_traits@, c.name, any_name) {
                    Ok(v) => lemma_check_ifaces_result(classes, v, c.interfaces@, c.name),
                    Err(_) => {},
                }
            },
            Some(s) => {
                if s < id {
                    lemma_resolve_wf(classes, s as int, any_name);
                    match spec_resolve(classes, s as int, any_name) {
                        Ok(b) => {
                            lemma_apply_traits_wf(b, c.instance_traits@, c.name, any_name);
                            match spec_apply_traits(b, c.instance_traits@, c.name, any_name) {
                                Ok(v) => lemma_check_ifaces_result(classes, v, c.interfaces@,
                                    c.name),
                                Err(_) => {},
                            }
                        },
                        Err(_) => {},
                    }
                }
            },
        }
    }
}

/// Registration-order discipline: every superclass and interface of a
/// class was registered before it.
pub open spec fn classes_wf(classes: Seq<ClassDef>) -> bool {
    &&& forall|j: int| 0 <= j < classes.len() ==> match (#[trigger] classes[j]).super_class {
        Some(s) => s < j,
        None => true,
    }
    &&& forall|j: int, k: int| 0 <= j < classes.len()
        && 0 <= k < classes[j].interfaces@.len()
        ==> #[trigger] classes[j].interfaces@[k] < j
}

/// The interface check of already registered classes is unaffected by a
/// newly registered class.
pub proof fn lemma_check_ifaces_frame(classes: Seq<ClassDef>, c: ClassDef, v: VtS,
    ifaces: Seq<ClassId>, class_name: NameId)
    requires
        forall|k: int| 0 <= k < ifaces.len() ==> #[trigger] ifaces[k] < classes.len(),
    ensures
        spec_check_ifaces(classes.push(c), v, ifaces, class_name)
            == spec_check_ifaces(classes, v, ifaces, class_name),
    decreases ifaces.len(),
{
    if ifaces.len() > 0 {
        assert(classes.push(c)[ifaces[0] as int] == classes[ifaces[0] as int]);
        lemma_check_ifaces_frame(classes, c, v, ifaces.drop_first(), class_name);
        assert(forall|k: int| 0 <= k < ifaces.drop_first().len()
            ==> #[trigger] ifaces.drop_first()[k] == ifaces[k + 1]);
    }
}

/// The resolved table of an already registered class is unaffected by a
/// newly registered class.
pub proof fn lemma_resolve_frame(classes: Seq<ClassDef>, c: ClassDef, id: int,
    any_name: NameId)
    requires
        classes_wf(classes),
        0 <= id < classes.len(),
    ensures
        spec_resolve(classes.push(c), id, any_name) == spec_resolve(classes, id, any_name),
    decreases id,
{
    assert(classes.push(c)[id] == classes[id]);
    let cd = classes[id];
    match cd.super_class {
        Some(s) => {
            if s < id {
                lemma_resolve_frame(classes, c, s as int, any_name);
            }
        },
        None => {},
    }
    assert(forall|k: int| 0 <= k < cd.interfaces@.len()
        ==> #[trigger] cd.interfaces@[k] < classes.len());
    match cd.super_class {
        None => {
            match spec_apply_traits(empty_vt(), cd.instance_traits@, cd.name, any_name) {
                Ok(v) => lemma_check_ifaces_frame(classes, c, v, cd.interfaces@, cd.name),
                Err(_) => {},
            }
        },
        Some(s) => {
            if s < id {
                match spec_resolve(classes, s as int, any_name) {
                    Ok(b) => {
                        match spec_apply_traits(b, cd.instance_traits@, cd.name, any_name) {
                            Ok(v) => lemma_check_ifaces_frame(classes, c, v, cd.interfaces@,
                                cd.name),
                            Err(_) => {},
                        }
                    },
                    Err(_) => {},
                }
            }
        },
    }
}

/// Copies a vector of plain values.
pub fn copy_vec<T: Copy>(v: &Vec<T>) -> (r: Vec<T>)
    ensures
        r@ == v@,
{
    let mut out: Vec<T> = Vec::new();
    let n = v.len();
    let mut i: usize = 0;
    while i < n
        invariant
            i <= n,
            n == v@.len(),
            out@ =~= v@.take(i as int),
        decreases n - i,
    {
        out.push(v[i]);
        i = i + 1;
    }
    proof {
        assert(out@ =~= v@);
    }
    out
}

impl VTable {
    /// An equal, independent copy of the table.
    pub fn duplicate(&self) -> (r: VTable)
        ensures
            r.view_vt() == self.view_vt(),
    {
        VTable {
            entries: copy_vec(&self.entries),
            methods: copy_vec(&self.methods),
            n_slots: self.n_slots,
        }
    }
}

/// Applies one declared trait to a table in place.
fn apply_trait(vt: &mut VTable, t: TraitDecl, class_name: NameId, any_name: NameId)
    -> (r: Result<(), ClassError>)
    requires
        vt_wf(old(vt).view_vt()),
    ensures
        match spec_apply_trait(old(vt).view_vt(), t, class_name, any_name) {
            Ok(v2) => r is Ok && final(vt).view_vt() == v2 && vt_wf(v2),
            Err(e) => r == Err::<(), ClassError>(e) && final(vt).view_vt()
                == old(vt).view_vt(),
        },
{
    proof {
        lemma_apply_trait_wf(old(vt).view_vt(), t, class_name, any_name);
        lemma_find_idx_valid(old(vt).view_vt().0, t.name);
    }
    if vt.methods.len() >= 0xFFFF_FFFF || vt.n_slots >= 0xFFFF_FFFF {
        return Err(ClassError::TooManyMembers { class: class_name });
    }
    let found = find_prop_idx(&vt.entries, t.name);
    match found {
        None => {
            match t.kind {
                TraitKind::Method { method } => {
                    let d = vt.methods.len() as u32;
                    vt.entries.push((t.name, Property::Method { disp_id: d }));
                    vt.methods.push(method);
                },
                TraitKind::Getter { method } => {
                    let d = vt.methods.len() as u32;
                    vt.entries.push((t.name, Property::Virtual { get: Some(d), set: None }));
                    vt.methods.push(method);
                },
                TraitKind::Setter { method } => {
                    let d = vt.methods.len() as u32;
                    vt.entries.push((t.name, Property::Virtual { get: None, set: Some(d) }));
                    vt.methods.push(method);
                },
                TraitKind::Slot { declared_type } => {
                    let lc = match declared_type {
                        Some(n) => LazyClass::Name(n),
                        None => LazyClass::Name(any_name),
                    };
                    vt.entries.push((t.name, Property::Slot { slot_id: vt.n_slots,
                        class: lc }));
                    vt.n_slots = vt.n_slots + 1;
                },
                TraitKind::ConstSlot { declared_type } => {
                    let lc = match declared_type {
                        Some(n) => LazyClass::Name(n),
                        None => LazyClass::Name(any_name),
                    };
                    vt.entries.push((t.name, Property::ConstSlot { slot_id: vt.n_slots,
                        class: lc }));
                    vt.n_slots = vt.n_slots + 1;
                },
            }
            Ok(())
        },
        Some(idx) => {
            let p = vt.entries[idx].1;
            match t.kind {
                TraitKind::Method { method } => match p {
                    Property::Method { disp_id } => {
                        vt.methods.set(disp_id as usize, method);
                        Ok(())
                    },
                    _ => Err(ClassError::IncompatibleOverride { class: class_name,
                        trait_name: t.name }),
                },
                TraitKind::Getter { method } => match p {
                    Property::Virtual { get: Some(g), set } => {
                        vt.methods.set(g as usize, method);
                        Ok(())
                    },
                    Property::Virtual { get: None, set } => {
                        let d = vt.methods.len() as u32;
                        vt.entries.set(idx, (t.name, Property::Virtual { get: Some(d), set }));
                        vt.methods.push(method);
                        Ok(())
                    },
                    _ => Err(ClassError::IncompatibleOverride { class: class_name,
                        trait_name: t.name }),
                },
                TraitKind::Setter { method } => match p {
                    Property::Virtual { get, set: Some(s) } => {
                        vt.methods.set(s as usize, method);
                        Ok(())
                    },
                    Property::Virtual { get, set: None } => {
                        let d = vt.methods.len() as u32;
                        vt.entries.set(idx, (t.name, Property::Virtual { get, set: Some(d) }));
                        vt.methods.push(method);
                        Ok(())
                    },
                    _ => Err(ClassError::IncompatibleOverride { class: class_name,
                        trait_name: t.name }),
                },
                _ => Err(ClassError::IncompatibleOverride { class: class_name,
                    trait_name: t.name }),
            }
        },
    }
}

/// Override compatibility: a method declared with the same qualified name
/// as one already in the table reuses the inherited dispatch slot. The
/// entries are untouched and only the body behind that dispatch id is
/// replaced, so a call through the name — whether the caller holds the
/// superclass's or the subclass's view of the object — dispatches to the
/// overriding implementation.
pub proof fn lemma_override_reuses_dispatch(v: VtS, t: TraitDecl, class_name: NameId,
    any_name: NameId)
    requires
        vt_wf(v),
        v.1.len() < 0xFFFF_FFFF,
        v.2 < 0xFFFF_FFFF,
        spec_find_idx(v.0, t.name) >= 0,
    ensures
        match (t.kind, v.0[spec_find_idx(v.0, t.name)].1) {
            (TraitKind::Method { method }, Property::Method { disp_id }) =>
                spec_apply_trait(v, t, class_name, any_name)
                    == Ok::<VtS, ClassError>((v.0, v.1.update(disp_id as int, method), v.2)),
            _ => true,
        },
{
}

/// The name id standing for the unconstrained declared type.
pub const ANY_NAME: NameId = 0;

/// The registry of classes: interned qualified names, the registered
/// class definitions, and the memoized resolved tables.
pub struct ClassRegistry {
    names: Vec<QName>,
    classes: Vec<ClassDef>,
    vtables: Vec<Option<VTable>>,
}

impl ClassRegistry {
    pub closed spec fn spec_names(&self) -> Seq<QName> {
        self.names@
    }

    pub closed spec fn spec_classes(&self) -> Seq<ClassDef> {
        self.classes@
    }

    /// The memoized table of a class, if resolution already ran.
    pub closed spec fn spec_cached(&self, id: int) -> Option<VTable> {
        if 0 <= id < self.vtables@.len() {
            self.vtables@[id]
        } else {
            None
        }
    }

    /// The registry invariant: one table cell per class, registration
    /// order respected, interned names distinct with the unconstrained
    /// type's name first, and every memoized table equal to what
    /// resolution computes from the definitions.
    pub closed spec fn wf(&self) -> bool {
        &&& self.vtables@.len() == self.classes@.len()
        &&& classes_wf(self.classes@)
        &&& self.names@.len() >= 1
        &&& forall|i: int, j: int| 0 <= i < j < self.names@.len()
            ==> (#[trigger] self.names@[i]).key() != (#[trigger] self.names@[j]).key()
        &&& forall|j: int| 0 <= j < self.vtables@.len()
            && (#[trigger] self.vtables@[j]) is Some
            ==> spec_resolve(self.classes@, j, ANY_NAME)
                == Ok::<VtS, ClassError>(self.vtables@[j].unwrap().view_vt())
    }

    /// A fresh registry, knowing only the unconstrained type's name.
    pub fn new() -> (r: Self)
        ensures
            r.wf(),
            r.spec_classes().len() == 0,
            r.spec_names().len() == 1,
    {
        let mut names: Vec<QName> = Vec::new();
        let mut star: Vec<u8> = Vec::new();
        star.push(42);
        names.push(QName { ns: Vec::new(), name: star });
        ClassRegistry { names, classes: Vec::new(), vtables: Vec::new() }
    }

    pub fn class_count(&self) -> (r: usize)
        ensures
            r == self.spec_classes().len(),
    {
        self.classes.len()
    }

    /// The superclass of a registered class.
    pub fn super_of(&self, id: ClassId) -> (r: Option<ClassId>)
        ensures
            match r {
                Some(s) => id < self.spec_classes().len()
                    && self.spec_classes()[id as int].super_class == Some(s),
                None => id >= self.spec_classes().len()
                    || self.spec_classes()[id as int].super_class is None,
            },
    {
        if id < self.classes.len() {
            self.classes[id].super_class
        } else {
            None
        }
    }

    /// The interned name of a registered class.
    pub fn class_name(&self, id: ClassId) -> (r: Option<NameId>)
        ensures
            match r {
                Some(n) => id < self.spec_classes().len()
                    && self.spec_classes()[id as int].name == n,
                None => id >= self.spec_classes().len(),
            },
    {
        if id < self.classes.len() {
            Some(self.classes[id].name)
        } else {
            None
        }
    }

    /// The interfaces a registered class declares.
    pub fn interface_ids(&self, id: ClassId) -> (r: Vec<ClassId>)
        ensures
            id < self.spec_classes().len()
                ==> r@ == self.spec_classes()[id as int].interfaces@,
            id >= self.spec_classes().len() ==> r@.len() == 0,
    {
        if id < self.classes.len() {
            copy_vec(&self.classes[id].interfaces)
        } else {
            Vec::new()
        }
    }

    /// The attribute flags of a registered class: sealed, final,
    /// interface.
    pub fn class_attrs(&self, id: ClassId) -> (r: Option<(bool, bool, bool)>)
        ensures
            match r {
                Some(f) => id < self.spec_classes().len()
                    && f.0 == self.spec_classes()[id as int].is_sealed
                    && f.1 == self.spec_classes()[id as int].is_final
                    && f.2 == self.spec_classes()[id as int].is_interface,
                None => id >= self.spec_classes().len(),
            },
    {
        if id < self.classes.len() {
            Some((self.classes[id].is_sealed, self.classes[id].is_final,
                self.classes[id].is_interface))
        } else {
            None
        }
    }

    /// The interned name with the given id.
    pub fn name_of(&self, id: NameId) -> (r: Option<&QName>)
        ensures
            match r {
                Some(q) => 0 <= id < self.spec_names().len() && *q == self.spec_names()[id as int],
                None => id >= self.spec_names().len(),
            },
    {
        if id < self.names.len() {
            Some(&self.names[id])
        } else {
            None
        }
    }

    /// Interns a qualified name: the id of the name with this content,
    /// which is appended if it is new.
    pub fn intern(&mut self, q: QName) -> (r: NameId)
        requires
            old(self).wf(),
        ensures
            final(self).wf(),
            final(self).spec_classes() == old(self).spec_classes(),
            r < final(self).spec_names().len(),
            final(self).spec_names()[r as int].key() == q.key(),
            old(self).spec_names().len() <= final(self).spec_names().len(),
            forall|i: int| 0 <= i < old(self).spec_names().len()
                ==> #[trigger] final(self).spec_names()[i] == old(self).spec_names()[i],
            forall|j: int| #![trigger old(self).spec_cached(j)]
                old(self).spec_cached(j) == final(self).spec_cached(j),
    {
        let n = self.names.len();
        let mut i: usize = 0;
        while i < n
            invariant
                i <= n,
                n == self.names@.len(),
                *self == *old(self),
                old(self).wf(),
                forall|k: int| 0 <= k < i ==> (#[trigger] self.names@[k]).key() != q.key(),
            decreases n - i,
        {
            if qname_eq(&self.names[i], &q) {
                return i;
            }
            i = i + 1;
        }
        self.names.push(q);
        proof {
            assert forall|a: int, b: int| 0 <= a < b < self.names@.len() implies
                (#[trigger] self.names@[a]).key() != (#[trigger] self.names@[b]).key() by {
                if b < n {
                    assert(old(self).names@[a].key() != old(self).names@[b].key());
                }
            }
        }
        n
    }

    /// Registers a class. Its superclass and interfaces must already be
    /// registered; the new class's table is not resolved yet.
    pub fn add_class(&mut self, def: ClassDef) -> (r: Result<ClassId, ClassError>)
        requires
            old(self).wf(),
        ensures
            final(self).wf(),
            final(self).spec_names() == old(self).spec_names(),
            match r {
                Ok(id) => {
                    &&& id == old(self).spec_classes().len()
                    &&& final(self).spec_classes() == old(self).spec_classes().push(def)
                    &&& (match def.super_class {
                        Some(s) => s < id,
                        None => true,
                    })
                },
                Err(e) => {
                    &&& final(self).spec_classes() == old(self).spec_classes()
                    &&& (e is NoSuchClass)
                    &&& !((match def.super_class {
                        Some(s) => s < old(self).spec_classes().len(),
                        None => true,
                    }) && (forall|k: int| 0 <= k < def.interfaces@.len()
                        ==> #[trigger] def.interfaces@[k] < old(self).spec_classes().len()))
                },
            },
            forall|j: int| 0 <= j < old(self).spec_classes().len()
                ==> spec_resolve(final(self).spec_classes(), j, ANY_NAME)
                    == spec_resolve(old(self).spec_classes(), j, ANY_NAME),
    {
        let id = self.classes.len();
        match def.super_class {
            Some(s) => {
                if s >= id {
                    return Err(ClassError::NoSuchClass { class: s });
                }
            },
            None => {},
        }
        let n_ifaces = def.interfaces.len();
        let mut k: usize = 0;
        while k < n_ifaces
            invariant
                k <= n_ifaces,
                n_ifaces == def.interfaces@.len(),
                *self == *old(self),
                old(self).wf(),
                id == self.classes@.len(),
                forall|m: int| 0 <= m < k ==> #[trigger] def.interfaces@[m] < id,
            decreases n_ifaces - k,
        {
            if def.interfaces[k] >= id {
                return Err(ClassError::NoSuchClass { class: def.interfaces[k] });
            }
            k = k + 1;
        }
        proof {
            assert forall|j: int| 0 <= j < old(self).spec_classes().len() implies
                spec_resolve(old(self).spec_classes().push(def), j, ANY_NAME)
                    == spec_resolve(old(self).spec_classes(), j, ANY_NAME) by {
                lemma_resolve_frame(old(self).spec_classes(), def, j, ANY_NAME);
            }
        }
        self.classes.push(def);
        self.vtables.push(None);
        Ok(id)
    }

    /// Resolves the class's virtual table, memoizing the result: the
    /// superclass is resolved first, the class's own traits are overlaid,
    /// and the interface obligations are checked. A second resolution of
    /// the same class returns the memoized table unchanged, so resolving
    /// twice yields identical tables.
    pub fn resolve_vtable(&mut self, id: ClassId) -> (r: Result<VTable, ClassError>)
        requires
            old(self).wf(),
        ensures
            final(self).wf(),
            final(self).spec_classes() == old(self).spec_classes(),
            final(self).spec_names() == old(self).spec_names(),
            match r {
                Ok(vt) => spec_resolve(old(self).spec_classes(), id as int, ANY_NAME)
                    == Ok::<VtS, ClassError>(vt.view_vt())
                    && final(self).spec_cached(id as int) is Some
                    && final(self).spec_cached(id as int).unwrap().view_vt() == vt.view_vt()
                    && vt_wf(vt.view_vt()),
                Err(e) => spec_resolve(old(self).spec_classes(), id as int, ANY_NAME)
                    == Err::<VtS, ClassError>(e),
            },
            old(self).spec_cached(id as int) is Some ==> *final(self) == *old(self),
        decreases id,
    {
        if id >= self.classes.len() {
            return Err(ClassError::NoSuchClass { class: id });
        }
        let cache_hit = self.vtables[id].is_some();
        if cache_hit {
            proof {
                lemma_resolve_wf(self.classes@, id as int, ANY_NAME);
            }
            let vt = match &self.vtables[id] {
                Some(v) => v.duplicate(),
                None => VTable::empty(),
            };
            return Ok(vt);
        }
        let class_name = self.classes[id].name;
        let vt0: VTable = match self.classes[id].super_class {
            None => VTable::empty(),
            Some(s) => {
                proof {
                    assert(s < id);
                }
                match self.resolve_vtable(s) {
                    Ok(b) => b,
                    Err(e) => {
                        return Err(e);
                    },
                }
            },
        };
        proof {
            lemma_resolve_wf(self.classes@, id as int, ANY_NAME);
            match self.classes@[id as int].super_class {
                None => {},
                Some(s) => {
                    lemma_resolve_wf(self.classes@, s as int, ANY_NAME);
                },
            }
        }
        let ghost full_traits = self.classes@[id as int].instance_traits@;
        let ghost full_ifaces = self.classes@[id as int].interfaces@;
        // The goal, threaded through each loop: what resolution returns for
        // this class, in terms of the work still to do.
        let ghost goal = spec_resolve(self.classes@, id as int, ANY_NAME);
        proof {
            assert(full_traits.skip(0) =~= full_traits);
        }
        let mut vt = vt0;
        let n_traits = self.classes[id].instance_traits.len();
        let mut i: usize = 0;
        while i < n_traits
            invariant
                i <= n_traits,
                self.wf(),
                self.spec_classes() == old(self).spec_classes(),
                self.spec_names() == old(self).spec_names(),
                old(self).spec_cached(id as int) is None,
                0 <= id < self.spec_classes().len(),
                full_traits == self.spec_classes()[id as int].instance_traits@,
                full_ifaces == self.spec_classes()[id as int].interfaces@,
                n_traits == full_traits.len(),
                class_name == self.spec_classes()[id as int].name,
                goal == spec_resolve(self.spec_classes(), id as int, ANY_NAME),
                vt_wf(vt.view_vt()),
                goal == (match spec_apply_traits(vt.view_vt(), full_traits.skip(i as int),
                        class_name, ANY_NAME) {
                    Ok(v) => spec_check_ifaces(self.spec_classes(), v, full_ifaces,
                        class_name),
                    Err(e) => Err(e),
                }),
            decreases n_traits - i,
        {
            let t = self.classes[id].instance_traits[i];
            proof {
                let ts = full_traits.skip(i as int);
                assert(ts[0] == t);
                assert(ts.drop_first() =~= full_traits.skip(i as int + 1));
            }
            match apply_trait(&mut vt, t, class_name, ANY_NAME) {
                Ok(()) => {},
                Err(e) => {
                    return Err(e);
                },
            }
            i = i + 1;
        }
        proof {
            assert(full_traits.skip(n_traits as int) =~= Seq::<TraitDecl>::empty());
            assert(full_ifaces.skip(0) =~= full_ifaces);
        }
        let ghost resolved_v = vt.view_vt();
        let n_ifaces = self.classes[id].interfaces.len();
        let mut k: usize = 0;
        while k < n_ifaces
            invariant
                k <= n_ifaces,
                self.wf(),
                self.spec_classes() == old(self).spec_classes(),
                self.spec_names() == old(self).spec_names(),
                old(self).spec_cached(id as int) is None,
                0 <= id < self.spec_classes().len(),
                full_ifaces == self.spec_classes()[id as int].interfaces@,
                n_ifaces == full_ifaces.len(),
                class_name == self.spec_classes()[id as int].name,
                goal == spec_resolve(self.spec_classes(), id as int, ANY_NAME),
                vt.view_vt() == resolved_v,
                vt_wf(resolved_v),
                goal == spec_check_ifaces(self.spec_classes(), resolved_v,
                    full_ifaces.skip(k as int), class_name),
            decreases n_ifaces - k,
        {
            let iid = self.classes[id].interfaces[k];
            proof {
                let ifs = full_ifaces.skip(k as int);
                assert(ifs[0] == iid);
                assert(ifs.drop_first() =~= full_ifaces.skip(k as int + 1));
            }
            if iid >= self.classes.len() {
                return Err(ClassError::NoSuchClass { class: iid });
            }
            if !self.classes[iid].is_interface {
                return Err(ClassError::NotAnInterface { class: class_name,
                    interface: self.classes[iid].name });
            }
            let iface_name = self.classes[iid].name;
            let ghost members = self.classes@[iid as int].instance_traits@;
            proof {
                assert(members.skip(0) =~= members);
            }
            let n_members = self.classes[iid].instance_traits.len();
            let mut m: usize = 0;
            while m < n_members
                invariant
                    m <= n_members,
                    self.wf(),
                    self.spec_classes() == old(self).spec_classes(),
                    self.spec_names() == old(self).spec_names(),
                    old(self).spec_cached(id as int) is None,
                    0 <= id < self.spec_classes().len(),
                    0 <= iid < self.spec_classes().len(),
                    members == self.spec_classes()[iid as int].instance_traits@,
                    n_members == members.len(),
                    iface_name == self.spec_classes()[iid as int].name,
                    class_name == self.spec_classes()[id as int].name,
                    goal == spec_resolve(self.spec_classes(), id as int, ANY_NAME),
                    vt.view_vt() == resolved_v,
                    spec_iface_missing(resolved_v, members)
                        == spec_iface_missing(resolved_v, members.skip(m as int)),
                    goal == (match spec_iface_missing(resolved_v, members) {
                        Some(mn) => Err(ClassError::InterfaceNotImplemented {
                            class: class_name, interface: iface_name, method: mn }),
                        None => spec_check_ifaces(self.spec_classes(), resolved_v,
                            full_ifaces.skip(k as int + 1), class_name),
                    }),
                decreases n_members - m,
            {
                let mt = self.classes[iid].instance_traits[m];
                proof {
                    let ms = members.skip(m as int);
                    assert(ms[0] == mt);
                    assert(ms.drop_first() =~= members.skip(m as int + 1));
                }
                if !iface_member_ok(&vt, mt) {
                    return Err(ClassError::InterfaceNotImplemented { class: class_name,
                        interface: iface_name, method: mt.name });
                }
                m = m + 1;
            }
            proof {
                assert(members.skip(n_members as int) =~= Seq::<TraitDecl>::empty());
            }
            k = k + 1;
        }
        proof {
            assert(full_ifaces.skip(n_ifaces as int) =~= Seq::<ClassId>::empty());
            lemma_check_ifaces_result(self.spec_classes(), resolved_v, full_ifaces,
                class_name);
        }
        let cached_copy = vt.duplicate();
        self.vtables.set(id, Some(cached_copy));
        proof {
            assert forall|j: int| 0 <= j < self.vtables@.len()
                && (#[trigger] self.vtables@[j]) is Some implies
                spec_resolve(self.classes@, j, ANY_NAME)
                    == Ok::<VtS, ClassError>(self.vtables@[j].unwrap().view_vt()) by {
            }
        }
        Ok(vt)
    }
}

/// Whether the table provides one interface member with the right kind.
fn iface_member_ok(vt: &VTable, t: TraitDecl) -> (r: bool)
    ensures
        r == spec_iface_member_ok(vt.view_vt(), t),
{
    proof {
        lemma_find_idx_valid(vt.view_vt().0, t.name);
    }
    let found = find_prop_idx(&vt.entries, t.name);
    match found {
        None => false,
        Some(idx) => {
            let p = vt.entries[idx].1;
            match t.kind {
                TraitKind::Method { .. } => matches!(p, Property::Method { .. }),
                TraitKind::Getter { .. } => match p {
                    Property::Virtual { get, .. } => get.is_some(),
                    _ => false,
                },
                TraitKind::Setter { .. } => match p {
                    Property::Virtual { set, .. } => set.is_some(),
                    _ => false,
                },
                _ => true,
            }
        },
    }
}

/// The first registered class bearing the name, or -1.
pub open spec fn spec_find_class(classes: Seq<ClassDef>, name: NameId) -> int
    decreases classes.len(),
{
    if classes.len() == 0 {
        -1
    } else if classes[0].name == name {
        0
    } else {
        let r = spec_find_class(classes.drop_first(), name);
        if r < 0 {
            -1
        } else {
            r + 1
        }
    }
}

proof fn lemma_find_class_char(classes: Seq<ClassDef>, name: NameId, i: int)
    requires
        0 <= i < classes.len(),
        classes[i].name == name,
        forall|k: int| 0 <= k < i ==> (#[trigger] classes[k]).name != name,
    ensures
        spec_find_class(classes, name) == i,
    decreases classes.len(),
{
    if i > 0 {
        lemma_find_class_char(classes.drop_first(), name, i - 1);
    }
}

proof fn lemma_find_class_none(classes: Seq<ClassDef>, name: NameId)
    requires
        forall|k: int| 0 <= k < classes.len() ==> (#[trigger] classes[k]).name != name,
    ensures
        spec_find_class(classes, name) == -1,
    decreases classes.len(),
{
    if classes.len() > 0 {
        lemma_find_class_none(classes.drop_first(), name);
    }
}

impl ClassRegistry {
    /// The first registered class bearing the interned name.
    pub fn find_class_by_name(&self, name: NameId) -> (r: Option<ClassId>)
        ensures
            match r {
                Some(c) => spec_find_class(self.spec_classes(), name) == c
                    && c < self.spec_classes().len()
                    && self.spec_classes()[c as int].name == name,
                None => spec_find_class(self.spec_classes(), name) == -1,
            },
    {
        let n = self.class_count();
        let mut i: usize = 0;
        while i < n
            invariant
                i <= n,
                n == self.spec_classes().len(),
                forall|k: int| 0 <= k < i ==> (#[trigger] self.spec_classes()[k]).name
                    != name,
            decreases n - i,
        {
            match self.class_name(i) {
                Some(cn) => {
                    if cn == name {
                        proof {
                            lemma_find_class_char(self.spec_classes(), name, i as int);
                        }
                        return Some(i);
                    }
                },
                None => {},
            }
            i = i + 1;
        }
        proof {
            lemma_find_class_none(self.spec_classes(), name);
        }
        None
    }
}

impl LazyClass {
    /// Resolves the declared type: a resolved handle is returned as it
    /// is; a name is looked up once and the handle memoized in place, so
    /// later uses pay nothing. A name no class bears is an explicit
    /// error, never silently masked.
    pub fn get(&mut self, registry: &ClassRegistry) -> (r: Result<ClassId, ClassError>)
        ensures
            match *old(self) {
                LazyClass::Class(c) => r == Ok::<ClassId, ClassError>(c)
                    && *final(self) == *old(self),
                LazyClass::Name(n) => {
                    let f = spec_find_class(registry.spec_classes(), n);
                    if f >= 0 {
                        r == Ok::<ClassId, ClassError>(f as ClassId)
                            && *final(self) == LazyClass::Class(f as ClassId)
                    } else {
                        r == Err::<ClassId, ClassError>(ClassError::NoSuchType { name: n })
                            && *final(self) == *old(self)
                    }
                },
            },
    {
        match *self {
            LazyClass::Class(c) => Ok(c),
            LazyClass::Name(n) => {
                match registry.find_class_by_name(n) {
                    Some(c) => {
                        *self = LazyClass::Class(c);
                        Ok(c)
                    },
                    None => Err(ClassError::NoSuchType { name: n }),
                }
            },
        }
    }
}

} // verus!
