//! The object runtime: instances are constructed from their class's
//! resolved table, and property access resolves in order through the
//! class trait table (typed slots, accessor pairs, methods), then the
//! dynamic property bag of an unsealed class. Accessors and methods
//! dispatch through the instance's own class table, so an overriding
//! subclass body is reached whichever typed reference the caller held.

use vstd::prelude::*;
use crate::value::{Value, ObjId, StringTable};
use crate::property::{NameId, ClassId, Property};
use crate::class::{ClassRegistry, ClassError, spec_resolve, spec_find_idx, find_prop_idx,
    ANY_NAME, copy_vec, VtS};
use crate::heap::{Heap, HeapObject, ObjKind};
use crate::interp::{MethodBody, run_method, CallOutcome, FatalError, FrameState, spec_run,
    StepResult};

verus! {

/// A runtime error. A `Thrown` value is a scripted, catchable exception;
/// the rest are the taxonomy's construction, reference, type, unsupported
/// and machine failures, each carrying what a diagnostic needs.
#[derive(Debug, Clone, Copy, PartialEq, Eq, Structural)]
pub enum AvmError {
    /// A scripted exception that escaped the callee.
    Thrown(Value),
    /// The property does not exist on a sealed class, or the accessor
    /// half needed is missing.
    ReferenceError { name: NameId },
    /// The property cannot be used this way (calling a non-callable,
    /// writing through a getter-only accessor).
    TypeError { name: NameId },
    /// A constant slot cannot be written again after construction.
    WriteToConst { name: NameId },
    /// The operation exists in the scripting language but this runtime
    /// does not support it; explicit, never a silent no-op.
    Unsupported,
    /// A class failed to resolve; fatal to that class, catchable here.
    Class(ClassError),
    /// No such object on the heap.
    NoSuchObject { obj: ObjId },
    /// No such method body.
    NoSuchMethod { method: usize },
    /// Malformed bytecode or an exhausted execution budget.
    Machine(FatalError),
}

/// The whole virtual machine of one worker: its classes, its heap, its
/// interned strings, and its method bodies.
pub struct Avm {
    pub registry: ClassRegistry,
    pub heap: Heap,
    pub strings: StringTable,
    pub methods: Vec<MethodBody>,
}

/// The initial activation state of a method run against an object's
/// slots: empty stack, the receiver and arguments in the locals.
pub open spec fn spec_init_frame(this: Value, args: Seq<Value>, n_locals: u32,
    slots: Seq<Value>) -> FrameState {
    FrameState {
        stack: Seq::<Value>::empty(),
        locals: seq![this] + args + Seq::<Value>::new(n_locals as nat,
            |i: int| Value::Undefined),
        slots: slots,
        pc: 0,
    }
}

/// What running the method with the given index against the object does:
/// the activation starts from the object's slots, the specification
/// machine runs it, the final slots land back in the object, and the
/// result mirrors the outcome. Missing methods and dead objects are
/// errors that leave the heap alone.
pub open spec fn spec_invoke(methods: Seq<MethodBody>, classes: Seq<crate::class::ClassDef>,
    tbl: Seq<Vec<u8>>, cells: Seq<Option<HeapObject>>, method: int, obj: ObjId,
    args: Seq<Value>, fuel: nat, r: Result<Value, AvmError>,
    post: Seq<Option<HeapObject>>) -> bool {
    if !(0 <= method < methods.len()) {
        r == Err::<Value, AvmError>(AvmError::NoSuchMethod { method: method as usize })
            && post == cells
    } else if !(obj < cells.len() && cells[obj as int] is Some) {
        r == Err::<Value, AvmError>(AvmError::NoSuchObject { obj }) && post == cells
    } else {
        let o = cells[obj as int].unwrap();
        let body = methods[method];
        let init = spec_init_frame(Value::Object(obj), args, body.n_locals, o.slots@);
        let (res, fin) = spec_run(body.code@, body.tries@, classes, cells, tbl, init, fuel);
        &&& post.len() == cells.len()
        &&& (forall|i: int| 0 <= i < cells.len() && i != obj ==> post[i] == cells[i])
        &&& post[obj as int] is Some
        &&& ({
            let fo = post[obj as int].unwrap();
            &&& fo.class == o.class
            &&& fo.kind == o.kind
            &&& fo.dynamic@ == o.dynamic@
            &&& fo.elements@ == o.elements@
            &&& fo.slots@ == fin.slots
        })
        &&& match res {
            StepResult::Done(CallOutcome::Return(v)) => r == Ok::<Value, AvmError>(v),
            StepResult::Done(CallOutcome::Thrown(v)) =>
                r == Err::<Value, AvmError>(AvmError::Thrown(v)),
            StepResult::Fatal(f) => r == Err::<Value, AvmError>(AvmError::Machine(f)),
            StepResult::Next(_) => false,
        }
    }
}

impl Avm {
    pub open spec fn wf(&self) -> bool {
        &&& self.registry.wf()
        &&& self.strings.wf()
        &&& forall|i: int| 0 <= i < self.methods@.len()
            ==> (#[trigger] self.methods@[i]).n_locals <= 0x1000
    }

    pub fn new() -> (r: Self)
        ensures
            r.wf(),
    {
        Avm {
            registry: ClassRegistry::new(),
            heap: Heap::new(),
            strings: StringTable::new(),
            methods: Vec::new(),
        }
    }

    /// Registers a method body, returning its index. A method may declare
    /// at most 4096 extra locals.
    pub fn add_method(&mut self, body: MethodBody) -> (r: usize)
        requires
            old(self).wf(),
            body.n_locals <= 0x1000,
        ensures
            final(self).wf(),
            final(self).methods@.len() == old(self).methods@.len() + 1,
            r == old(self).methods@.len(),
            final(self).registry == old(self).registry,
            final(self).heap == old(self).heap,
            final(self).strings == old(self).strings,
    {
        let id = self.methods.len();
        self.methods.push(body);
        id
    }

    /// Constructs an instance of the class: its table is resolved (the
    /// superclass first, interface obligations checked), and a fresh
    /// object with that many slots, all undefined, is allocated.
    pub fn construct_instance(&mut self, class: ClassId) -> (r: Result<ObjId, AvmError>)
        requires
            old(self).wf(),
        ensures
            final(self).wf(),
            final(self).registry.spec_classes() == old(self).registry.spec_classes(),
            final(self).registry.spec_names() == old(self).registry.spec_names(),
            final(self).strings == old(self).strings,
            final(self).methods == old(self).methods,
            old(self).heap.spec_cells().len() <= final(self).heap.spec_cells().len(),
            match r {
                Ok(id) => {
                    &&& spec_resolve(old(self).registry.spec_classes(), class as int,
                        ANY_NAME) is Ok
                    &&& (forall|i: int| 0 <= i < old(self).heap.spec_cells().len()
                        && i != id ==> final(self).heap.spec_cells()[i]
                            == old(self).heap.spec_cells()[i])
                    &&& (id < old(self).heap.spec_cells().len()
                        ==> old(self).heap.spec_cells()[id as int] is None)
                    &&& id < final(self).heap.spec_cells().len()
                    &&& final(self).heap.spec_cells()[id as int] is Some
                    &&& ({
                        let o = final(self).heap.spec_cells()[id as int].unwrap();
                        &&& o.class == class
                        &&& o.kind == ObjKind::Plain
                        &&& o.dynamic@.len() == 0
                        &&& o.slots@.len() == spec_resolve(old(self).registry.spec_classes(),
                            class as int, ANY_NAME).unwrap().2
                        &&& forall|k: int| 0 <= k < o.slots@.len()
                            ==> o.slots@[k] == Value::Undefined
                    })
                },
                Err(AvmError::Class(e)) => spec_resolve(old(self).registry.spec_classes(),
                    class as int, ANY_NAME) == Err::<VtS, ClassError>(e)
                    && final(self).heap == old(self).heap,
                Err(_) => false,
            },
    {
        let vt = match self.registry.resolve_vtable(class) {
            Ok(vt) => vt,
            Err(e) => {
                return Err(AvmError::Class(e));
            },
        };
        let n = vt.n_slots as usize;
        let mut slots: Vec<Value> = Vec::new();
        let mut i: usize = 0;
        while i < n
            invariant
                i <= n,
                slots@.len() == i,
                forall|k: int| 0 <= k < i ==> slots@[k] == Value::Undefined,
            decreases n - i,
        {
            slots.push(Value::Undefined);
            i = i + 1;
        }
        let id = self.heap.allocate(HeapObject {
            class,
            slots,
            dynamic: Vec::new(),
            elements: Vec::new(),
            kind: ObjKind::Plain,
        });
        Ok(id)
    }

    /// Runs the method with the given index against the object: the
    /// object's slots are handed to the activation and written back when
    /// it ends. The outcome and final slots are the specification
    /// machine's, exactly.
    pub fn call_method_on(&mut self, method: usize, obj: ObjId, args: &Vec<Value>,
        fuel: u64) -> (r: Result<Value, AvmError>)
        requires
            old(self).wf(),
            args@.len() <= 0x1000,
        ensures
            final(self).wf(),
            final(self).registry == old(self).registry,
            final(self).strings == old(self).strings,
            final(self).methods == old(self).methods,
            spec_invoke(old(self).methods@, old(self).registry.spec_classes(),
                old(self).strings.spec_strings(), old(self).heap.spec_cells(),
                method as int, obj, args@, fuel as nat, r,
                final(self).heap.spec_cells()),
    {
        if method >= self.methods.len() {
            return Err(AvmError::NoSuchMethod { method });
        }
        let (class, mut slots, dynamic, elements, kind) = match self.heap.get(obj) {
            Some(o) => (o.class, copy_vec(&o.slots), copy_vec(&o.dynamic),
                copy_vec(&o.elements), o.kind),
            None => {
                return Err(AvmError::NoSuchObject { obj });
            },
        };
        let body_ref = &self.methods[method];
        let outcome = run_method(body_ref, &self.registry, &self.heap, &self.strings,
            Value::Object(obj), args, &mut slots, fuel);
        self.heap.set(obj, HeapObject { class, slots, dynamic, elements, kind });
        match outcome {
            Ok(CallOutcome::Return(v)) => Ok(v),
            Ok(CallOutcome::Thrown(v)) => Err(AvmError::Thrown(v)),
            Err(f) => Err(AvmError::Machine(f)),
        }
    }

    /// Reads a property: the class trait table is consulted first by
    /// exact qualified name — a typed slot is read directly, an accessor
    /// dispatches its getter through the instance's class — and only an
    /// unsealed class falls back to its dynamic bag, where a missing name
    /// reads as undefined. A missing name on a sealed class is a
    /// reference error.
    pub fn get_property(&mut self, obj: ObjId, name: NameId, fuel: u64)
        -> (r: Result<Value, AvmError>)
        requires
            old(self).wf(),
        ensures
            final(self).wf(),
            final(self).registry.spec_classes() == old(self).registry.spec_classes(),
            final(self).registry.spec_names() == old(self).registry.spec_names(),
            final(self).strings == old(self).strings,
            final(self).methods == old(self).methods,
            ({
                let cells = old(self).heap.spec_cells();
                let classes = old(self).registry.spec_classes();
                if !(obj < cells.len() && cells[obj as int] is Some) {
                    r == Err::<Value, AvmError>(AvmError::NoSuchObject { obj })
                        && final(self).heap == old(self).heap
                } else {
                    let o = cells[obj as int].unwrap();
                    match spec_resolve(classes, o.class as int, ANY_NAME) {
                        Err(e) => r == Err::<Value, AvmError>(AvmError::Class(e))
                            && final(self).heap.spec_cells() == cells,
                        Ok(vt) => {
                            let idx = spec_find_idx(vt.0, name);
                            if idx >= 0 {
                                match vt.0[idx].1 {
                                    Property::Slot { slot_id, .. } => final(self).heap
                                        .spec_cells() == cells
                                        && (if slot_id < o.slots@.len() {
                                            r == Ok::<Value, AvmError>(
                                                o.slots@[slot_id as int])
                                        } else {
                                            r == Err::<Value, AvmError>(
                                                AvmError::Machine(FatalError::BadSlot))
                                        }),
                                    Property::ConstSlot { slot_id, .. } => final(self).heap
                                        .spec_cells() == cells
                                        && (if slot_id < o.slots@.len() {
                                            r == Ok::<Value, AvmError>(
                                                o.slots@[slot_id as int])
                                        } else {
                                            r == Err::<Value, AvmError>(
                                                AvmError::Machine(FatalError::BadSlot))
                                        }),
                                    Property::Virtual { get: Some(g), .. } =>
                                        spec_invoke(old(self).methods@, classes,
                                            old(self).strings.spec_strings(), cells,
                                            vt.1[g as int] as int, obj,
                                            Seq::<Value>::empty(), fuel as nat, r,
                                            final(self).heap.spec_cells()),
                                    Property::Virtual { get: None, .. } =>
                                        r == Err::<Value, AvmError>(
                                            AvmError::ReferenceError { name })
                                        && final(self).heap.spec_cells() == cells,
                                    Property::Method { .. } =>
                                        r == Err::<Value, AvmError>(AvmError::Unsupported)
                                        && final(self).heap.spec_cells() == cells,
                                }
                            } else if o.class < classes.len()
                                && classes[o.class as int].is_sealed {
                                r == Err::<Value, AvmError>(
                                    AvmError::ReferenceError { name })
                                    && final(self).heap.spec_cells() == cells
                            } else {
                                let di = spec_find_dyn(o.dynamic@, name);
                                final(self).heap.spec_cells() == cells
                                    && (if di >= 0 {
                                        r == Ok::<Value, AvmError>(o.dynamic@[di].1)
                                    } else {
                                        r == Ok::<Value, AvmError>(Value::Undefined)
                                    })
                            }
                        },
                    }
                }
            }),
    {
        let (class, found) = match self.heap.get(obj) {
            Some(o) => (o.class, true),
            None => (0, false),
        };
        if !found {
            return Err(AvmError::NoSuchObject { obj });
        }
        let vt = match self.registry.resolve_vtable(class) {
            Ok(vt) => vt,
            Err(e) => {
                return Err(AvmError::Class(e));
            },
        };
        let fi = find_prop_idx(&vt.entries, name);
        proof {
            crate::class::lemma_find_idx_valid(vt.view_vt().0, name);
        }
        match fi {
            Some(i) => {
                let prop = vt.entries[i].1;
                match prop {
                    Property::Slot { slot_id, .. } | Property::ConstSlot { slot_id, .. } => {
                        match self.heap.get(obj) {
                            Some(o) => {
                                if (slot_id as usize) < o.slots.len() {
                                    Ok(o.slots[slot_id as usize])
                                } else {
                                    Err(AvmError::Machine(FatalError::BadSlot))
                                }
                            },
                            None => Err(AvmError::NoSuchObject { obj }),
                        }
                    },
                    Property::Virtual { get: Some(g), .. } => {
                        proof {
                            crate::class::lemma_resolve_wf(
                                self.registry.spec_classes(), class as int, ANY_NAME);
                            crate::class::lemma_find_idx_valid(vt.view_vt().0, name);
                        }
                        let m = vt.methods[g as usize];
                        let args: Vec<Value> = Vec::new();
                        self.call_method_on(m, obj, &args, fuel)
                    },
                    Property::Virtual { get: None, .. } => {
                        Err(AvmError::ReferenceError { name })
                    },
                    Property::Method { .. } => Err(AvmError::Unsupported),
                }
            },
            None => {
                let sealed = match self.registry.class_attrs(class) {
                    Some((s, _, _)) => s,
                    None => false,
                };
                if sealed {
                    return Err(AvmError::ReferenceError { name });
                }
                match self.heap.get(obj) {
                    Some(o) => {
                        match find_dyn_idx(&o.dynamic, name) {
                            Some(di) => Ok(o.dynamic[di].1),
                            None => Ok(Value::Undefined),
                        }
                    },
                    None => Err(AvmError::NoSuchObject { obj }),
                }
            },
        }
    }
}

impl Avm {
    /// Writes a property, resolving as reads do: a typed slot is written
    /// in place — a constant slot only while it is still undefined, as it
    /// is write-once after construction — an accessor dispatches its
    /// setter, and an unsealed class's dynamic bag is updated in place or
    /// extended at the end, preserving enumeration order.
    pub fn set_property(&mut self, obj: ObjId, name: NameId, value: Value, fuel: u64)
        -> (r: Result<(), AvmError>)
        requires
            old(self).wf(),
        ensures
            final(self).wf(),
            final(self).registry.spec_classes() == old(self).registry.spec_classes(),
            final(self).registry.spec_names() == old(self).registry.spec_names(),
            final(self).strings == old(self).strings,
            final(self).methods == old(self).methods,
            ({
                let cells = old(self).heap.spec_cells();
                let classes = old(self).registry.spec_classes();
                if !(obj < cells.len() && cells[obj as int] is Some) {
                    r == Err::<(), AvmError>(AvmError::NoSuchObject { obj })
                        && final(self).heap == old(self).heap
                } else {
                    let o = cells[obj as int].unwrap();
                    match spec_resolve(classes, o.class as int, ANY_NAME) {
                        Err(e) => r == Err::<(), AvmError>(AvmError::Class(e))
                            && final(self).heap.spec_cells() == cells,
                        Ok(vt) => {
                            let idx = spec_find_idx(vt.0, name);
                            if idx >= 0 {
                                match vt.0[idx].1 {
                                    Property::Slot { slot_id, .. } =>
                                        if slot_id < o.slots@.len() {
                                            r == Ok::<(), AvmError>(())
                                            && spec_slot_written(cells, obj, slot_id as int,
                                                value, final(self).heap.spec_cells())
                                        } else {
                                            r == Err::<(), AvmError>(
                                                AvmError::Machine(FatalError::BadSlot))
                                            && final(self).heap.spec_cells() == cells
                                        },
                                    Property::ConstSlot { slot_id, .. } =>
                                        if slot_id < o.slots@.len() {
                                            if o.slots@[slot_id as int]
                                                == Value::Undefined {
                                                r == Ok::<(), AvmError>(())
                                                && spec_slot_written(cells, obj,
                                                    slot_id as int, value,
                                                    final(self).heap.spec_cells())
                                            } else {
                                                r == Err::<(), AvmError>(
                                                    AvmError::WriteToConst { name })
                                                && final(self).heap.spec_cells() == cells
                                            }
                                        } else {
                                            r == Err::<(), AvmError>(
                                                AvmError::Machine(FatalError::BadSlot))
                                            && final(self).heap.spec_cells() == cells
                                        },
                                    Property::Virtual { set: Some(s), .. } => ({
                                        exists|rv: Result<Value, AvmError>|
                                            spec_invoke(old(self).methods@, classes,
                                                old(self).strings.spec_strings(), cells,
                                                vt.1[s as int] as int, obj, seq![value],
                                                fuel as nat, rv,
                                                final(self).heap.spec_cells())
                                            && r == (match rv {
                                                Ok(_) => Ok::<(), AvmError>(()),
                                                Err(e) => Err::<(), AvmError>(e),
                                            })
                                    }),
                                    Property::Virtual { set: None, .. } =>
                                        r == Err::<(), AvmError>(
                                            AvmError::ReferenceError { name })
                                        && final(self).heap.spec_cells() == cells,
                                    Property::Method { .. } =>
                                        r == Err::<(), AvmError>(
                                            AvmError::TypeError { name })
                                        && final(self).heap.spec_cells() == cells,
                                }
                            } else if o.class < classes.len()
                                && classes[o.class as int].is_sealed {
                                r == Err::<(), AvmError>(AvmError::ReferenceError { name })
                                    && final(self).heap.spec_cells() == cells
                            } else {
                                let di = spec_find_dyn(o.dynamic@, name);
                                r == Ok::<(), AvmError>(())
                                && spec_dyn_written(cells, obj, name, value, di,
                                    final(self).heap.spec_cells())
                            }
                        },
                    }
                }
            }),
    {
        let (class, found) = match self.heap.get(obj) {
            Some(o) => (o.class, true),
            None => (0, false),
        };
        if !found {
            return Err(AvmError::NoSuchObject { obj });
        }
        let vt = match self.registry.resolve_vtable(class) {
            Ok(vt) => vt,
            Err(e) => {
                return Err(AvmError::Class(e));
            },
        };
        let fi = find_prop_idx(&vt.entries, name);
        proof {
            crate::class::lemma_find_idx_valid(vt.view_vt().0, name);
            crate::class::lemma_resolve_wf(self.registry.spec_classes(), class as int,
                ANY_NAME);
        }
        match fi {
            Some(i) => {
                let prop = vt.entries[i].1;
                match prop {
                    Property::Slot { slot_id, .. } => self.write_slot(obj, name, slot_id,
                        value, false),
                    Property::ConstSlot { slot_id, .. } => self.write_slot(obj, name,
                        slot_id, value, true),
                    Property::Virtual { set: Some(s), .. } => {
                        let m = vt.methods[s as usize];
                        let mut args: Vec<Value> = Vec::new();
                        args.push(value);
                        proof {
                            assert(args@ =~= seq![value]);
                        }
                        match self.call_method_on(m, obj, &args, fuel) {
                            Ok(_) => Ok(()),
                            Err(e) => Err(e),
                        }
                    },
                    Property::Virtual { set: None, .. } => {
                        Err(AvmError::ReferenceError { name })
                    },
                    Property::Method { .. } => Err(AvmError::TypeError { name }),
                }
            },
            None => {
                let sealed = match self.registry.class_attrs(class) {
                    Some((s, _, _)) => s,
                    None => false,
                };
                if sealed {
                    return Err(AvmError::ReferenceError { name });
                }
                let (class2, mut slots, mut dynamic, elements, kind) =
                    match self.heap.get(obj) {
                    Some(o) => (o.class, copy_vec(&o.slots), copy_vec(&o.dynamic),
                        copy_vec(&o.elements), o.kind),
                    None => {
                        return Err(AvmError::NoSuchObject { obj });
                    },
                };
                match find_dyn_idx(&dynamic, name) {
                    Some(di) => {
                        dynamic.set(di, (name, value));
                    },
                    None => {
                        dynamic.push((name, value));
                    },
                }
                self.heap.set(obj, HeapObject { class: class2, slots, dynamic, elements,
                    kind });
                Ok(())
            },
        }
    }

    /// Writes one slot of the object in place; a constant slot may be
    /// written only while still undefined.
    fn write_slot(&mut self, obj: ObjId, name: NameId, slot_id: u32, value: Value,
        is_const: bool) -> (r: Result<(), AvmError>)
        requires
            old(self).wf(),
            obj < old(self).heap.spec_cells().len(),
            old(self).heap.spec_cells()[obj as int] is Some,
        ensures
            final(self).wf(),
            final(self).registry == old(self).registry,
            final(self).strings == old(self).strings,
            final(self).methods == old(self).methods,
            ({
                let cells = old(self).heap.spec_cells();
                let o = cells[obj as int].unwrap();
                if slot_id < o.slots@.len() {
                    if is_const && o.slots@[slot_id as int] != Value::Undefined {
                        r == Err::<(), AvmError>(AvmError::WriteToConst { name })
                            && final(self).heap.spec_cells() == cells
                    } else {
                        r == Ok::<(), AvmError>(())
                            && spec_slot_written(cells, obj, slot_id as int, value,
                                final(self).heap.spec_cells())
                    }
                } else {
                    r == Err::<(), AvmError>(AvmError::Machine(FatalError::BadSlot))
                        && final(self).heap.spec_cells() == cells
                }
            }),
    {
        let (class, mut slots, dynamic, elements, kind) = match self.heap.get(obj) {
            Some(o) => (o.class, copy_vec(&o.slots), copy_vec(&o.dynamic),
                copy_vec(&o.elements), o.kind),
            None => {
                return Err(AvmError::NoSuchObject { obj });
            },
        };
        if (slot_id as usize) >= slots.len() {
            return Err(AvmError::Machine(FatalError::BadSlot));
        }
        if is_const {
            let cur = slots[slot_id as usize];
            if cur != Value::Undefined {
                return Err(AvmError::WriteToConst { name });
            }
        }
        slots.set(slot_id as usize, value);
        self.heap.set(obj, HeapObject { class, slots, dynamic, elements, kind });
        Ok(())
    }

    /// Calls a property as a method: only a trait-table method is
    /// callable here — an accessor's or dynamic value would need callable
    /// objects, which this runtime does not support — and a missing name
    /// is a reference error on a sealed class, a type error otherwise.
    pub fn call_property(&mut self, obj: ObjId, name: NameId, args: &Vec<Value>, fuel: u64)
        -> (r: Result<Value, AvmError>)
        requires
            old(self).wf(),
            args@.len() <= 0x1000,
        ensures
            final(self).wf(),
            final(self).registry.spec_classes() == old(self).registry.spec_classes(),
            final(self).registry.spec_names() == old(self).registry.spec_names(),
            final(self).strings == old(self).strings,
            final(self).methods == old(self).methods,
            ({
                let cells = old(self).heap.spec_cells();
                let classes = old(self).registry.spec_classes();
                if !(obj < cells.len() && cells[obj as int] is Some) {
                    r == Err::<Value, AvmError>(AvmError::NoSuchObject { obj })
                        && final(self).heap == old(self).heap
                } else {
                    let o = cells[obj as int].unwrap();
                    match spec_resolve(classes, o.class as int, ANY_NAME) {
                        Err(e) => r == Err::<Value, AvmError>(AvmError::Class(e))
                            && final(self).heap.spec_cells() == cells,
                        Ok(vt) => {
                            let idx = spec_find_idx(vt.0, name);
                            if idx >= 0 {
                                match vt.0[idx].1 {
                                    Property::Method { disp_id } =>
                                        spec_invoke(old(self).methods@, classes,
                                            old(self).strings.spec_strings(), cells,
                                            vt.1[disp_id as int] as int, obj, args@,
                                            fuel as nat, r,
                                            final(self).heap.spec_cells()),
                                    _ => r == Err::<Value, AvmError>(
                                        AvmError::Unsupported)
                                        && final(self).heap.spec_cells() == cells,
                                }
                            } else if o.class < classes.len()
                                && classes[o.class as int].is_sealed {
                                r == Err::<Value, AvmError>(
                                    AvmError::ReferenceError { name })
                                    && final(self).heap.spec_cells() == cells
                            } else {
                                r == Err::<Value, AvmError>(AvmError::TypeError { name })
                                    && final(self).heap.spec_cells() == cells
                            }
                        },
                    }
                }
            }),
    {
        let (class, found) = match self.heap.get(obj) {
            Some(o) => (o.class, true),
            None => (0, false),
        };
        if !found {
            return Err(AvmError::NoSuchObject { obj });
        }
        let vt = match self.registry.resolve_vtable(class) {
            Ok(vt) => vt,
            Err(e) => {
                return Err(AvmError::Class(e));
            },
        };
        let fi = find_prop_idx(&vt.entries, name);
        proof {
            crate::class::lemma_find_idx_valid(vt.view_vt().0, name);
            crate::class::lemma_resolve_wf(self.registry.spec_classes(), class as int,
                ANY_NAME);
        }
        match fi {
            Some(i) => {
                let prop = vt.entries[i].1;
                match prop {
                    Property::Method { disp_id } => {
                        let m = vt.methods[disp_id as usize];
                        self.call_method_on(m, obj, args, fuel)
                    },
                    _ => Err(AvmError::Unsupported),
                }
            },
            None => {
                let sealed = match self.registry.class_attrs(class) {
                    Some((s, _, _)) => s,
                    None => false,
                };
                if sealed {
                    Err(AvmError::ReferenceError { name })
                } else {
                    Err(AvmError::TypeError { name })
                }
            },
        }
    }

    /// Whether the object has the property: in its class trait table, or
    /// — on an unsealed class — in its dynamic bag.
    pub fn has_property(&mut self, obj: ObjId, name: NameId) -> (r: Result<bool, AvmError>)
        requires
            old(self).wf(),
        ensures
            final(self).wf(),
            final(self).registry.spec_classes() == old(self).registry.spec_classes(),
            final(self).registry.spec_names() == old(self).registry.spec_names(),
            final(self).strings == old(self).strings,
            final(self).methods == old(self).methods,
            final(self).heap == old(self).heap,
            ({
                let cells = old(self).heap.spec_cells();
                let classes = old(self).registry.spec_classes();
                if !(obj < cells.len() && cells[obj as int] is Some) {
                    r == Err::<bool, AvmError>(AvmError::NoSuchObject { obj })
                } else {
                    let o = cells[obj as int].unwrap();
                    match spec_resolve(classes, o.class as int, ANY_NAME) {
                        Err(e) => r == Err::<bool, AvmError>(AvmError::Class(e)),
                        Ok(vt) => r == Ok::<bool, AvmError>(
                            spec_find_idx(vt.0, name) >= 0
                            || (!(o.class < classes.len()
                                && classes[o.class as int].is_sealed)
                                && spec_find_dyn(o.dynamic@, name) >= 0)),
                    }
                }
            }),
    {
        let (class, found) = match self.heap.get(obj) {
            Some(o) => (o.class, true),
            None => (0, false),
        };
        if !found {
            return Err(AvmError::NoSuchObject { obj });
        }
        let vt = match self.registry.resolve_vtable(class) {
            Ok(vt) => vt,
            Err(e) => {
                return Err(AvmError::Class(e));
            },
        };
        match find_prop_idx(&vt.entries, name) {
            Some(_) => Ok(true),
            None => {
                let sealed = match self.registry.class_attrs(class) {
                    Some((s, _, _)) => s,
                    None => false,
                };
                if sealed {
                    return Ok(false);
                }
                match self.heap.get(obj) {
                    Some(o) => Ok(find_dyn_idx(&o.dynamic, name).is_some()),
                    None => Err(AvmError::NoSuchObject { obj }),
                }
            },
        }
    }

    /// Deletes a dynamic property, preserving the order of the others.
    /// Trait-table members are never deletable, and a sealed class has no
    /// dynamic bag: both report `false`.
    pub fn delete_property(&mut self, obj: ObjId, name: NameId)
        -> (r: Result<bool, AvmError>)
        requires
            old(self).wf(),
        ensures
            final(self).wf(),
            final(self).registry.spec_classes() == old(self).registry.spec_classes(),
            final(self).registry.spec_names() == old(self).registry.spec_names(),
            final(self).strings == old(self).strings,
            final(self).methods == old(self).methods,
            ({
                let cells = old(self).heap.spec_cells();
                let classes = old(self).registry.spec_classes();
                if !(obj < cells.len() && cells[obj as int] is Some) {
                    r == Err::<bool, AvmError>(AvmError::NoSuchObject { obj })
                        && final(self).heap == old(self).heap
                } else {
                    let o = cells[obj as int].unwrap();
                    match spec_resolve(classes, o.class as int, ANY_NAME) {
                        Err(e) => r == Err::<bool, AvmError>(AvmError::Class(e))
                            && final(self).heap.spec_cells() == cells,
                        Ok(vt) => {
                            let idx = spec_find_idx(vt.0, name);
                            let di = spec_find_dyn(o.dynamic@, name);
                            if idx >= 0 || (o.class < classes.len()
                                && classes[o.class as int].is_sealed) || di < 0 {
                                r == Ok::<bool, AvmError>(false)
                                    && final(self).heap.spec_cells() == cells
                            } else {
                                r == Ok::<bool, AvmError>(true)
                                && final(self).heap.spec_cells().len() == cells.len()
                                && (forall|i: int| 0 <= i < cells.len() && i != obj
                                    ==> final(self).heap.spec_cells()[i] == cells[i])
                                && final(self).heap.spec_cells()[obj as int] is Some
                                && ({
                                    let fo = final(self).heap.spec_cells()[obj as int]
                                        .unwrap();
                                    &&& fo.class == o.class
                                    &&& fo.kind == o.kind
                                    &&& fo.slots@ == o.slots@
                                    &&& fo.elements@ == o.elements@
                                    &&& fo.dynamic@ == o.dynamic@.remove(di)
                                })
                            }
                        },
                    }
                }
            }),
    {
        let (class, found) = match self.heap.get(obj) {
            Some(o) => (o.class, true),
            None => (0, false),
        };
        if !found {
            return Err(AvmError::NoSuchObject { obj });
        }
        let vt = match self.registry.resolve_vtable(class) {
            Ok(vt) => vt,
            Err(e) => {
                return Err(AvmError::Class(e));
            },
        };
        match find_prop_idx(&vt.entries, name) {
            Some(_) => Ok(false),
            None => {
                let sealed = match self.registry.class_attrs(class) {
                    Some((s, _, _)) => s,
                    None => false,
                };
                if sealed {
                    return Ok(false);
                }
                let (class2, slots, mut dynamic, elements, kind) = match self.heap.get(obj)
                {
                    Some(o) => (o.class, copy_vec(&o.slots), copy_vec(&o.dynamic),
                        copy_vec(&o.elements), o.kind),
                    None => {
                        return Err(AvmError::NoSuchObject { obj });
                    },
                };
                match find_dyn_idx(&dynamic, name) {
                    Some(di) => {
                        dynamic.remove(di);
                        self.heap.set(obj, HeapObject { class: class2, slots, dynamic,
                            elements, kind });
                        Ok(true)
                    },
                    None => Ok(false),
                }
            },
        }
    }
}

/// One slot of one object replaced; everything else untouched.
pub open spec fn spec_slot_written(cells: Seq<Option<HeapObject>>, obj: ObjId, slot: int,
    value: Value, post: Seq<Option<HeapObject>>) -> bool {
    let o = cells[obj as int].unwrap();
    &&& post.len() == cells.len()
    &&& (forall|i: int| 0 <= i < cells.len() && i != obj ==> post[i] == cells[i])
    &&& post[obj as int] is Some
    &&& ({
        let fo = post[obj as int].unwrap();
        &&& fo.class == o.class
        &&& fo.kind == o.kind
        &&& fo.dynamic@ == o.dynamic@
        &&& fo.elements@ == o.elements@
        &&& fo.slots@ == o.slots@.update(slot, value)
    })
}

/// One dynamic property written: updated in place when present, appended
/// when new; everything else untouched.
pub open spec fn spec_dyn_written(cells: Seq<Option<HeapObject>>, obj: ObjId, name: NameId,
    value: Value, di: int, post: Seq<Option<HeapObject>>) -> bool {
    let o = cells[obj as int].unwrap();
    &&& post.len() == cells.len()
    &&& (forall|i: int| 0 <= i < cells.len() && i != obj ==> post[i] == cells[i])
    &&& post[obj as int] is Some
    &&& ({
        let fo = post[obj as int].unwrap();
        &&& fo.class == o.class
        &&& fo.kind == o.kind
        &&& fo.slots@ == o.slots@
        &&& fo.elements@ == o.elements@
        &&& fo.dynamic@ == (if di >= 0 {
            o.dynamic@.update(di, (name, value))
        } else {
            o.dynamic@.push((name, value))
        })
    })
}

/// The index of the first dynamic-bag entry with the given name, or -1.
pub open spec fn spec_find_dyn(entries: Seq<(NameId, Value)>, name: NameId) -> int
    decreases entries.len(),
{
    if entries.len() == 0 {
        -1
    } else if entries[0].0 == name {
        0
    } else {
        let r = spec_find_dyn(entries.drop_first(), name);
        if r < 0 {
            -1
        } else {
            r + 1
        }
    }
}

pub proof fn lemma_find_dyn_char(entries: Seq<(NameId, Value)>, name: NameId, i: int)
    requires
        0 <= i < entries.len(),
        entries[i].0 == name,
        forall|k: int| 0 <= k < i ==> (#[trigger] entries[k]).0 != name,
    ensures
        spec_find_dyn(entries, name) == i,
    decreases entries.len(),
{
    if i > 0 {
        lemma_find_dyn_char(entries.drop_first(), name, i - 1);
    }
}

pub proof fn lemma_find_dyn_none(entries: Seq<(NameId, Value)>, name: NameId)
    requires
        forall|k: int| 0 <= k < entries.len() ==> (#[trigger] entries[k]).0 != name,
    ensures
        spec_find_dyn(entries, name) == -1,
    decreases entries.len(),
{
    if entries.len() > 0 {
        lemma_find_dyn_none(entries.drop_first(), name);
    }
}

/// Finds the first dynamic-bag entry with the given name.
pub fn find_dyn_idx(entries: &Vec<(NameId, Value)>, name: NameId) -> (r: Option<usize>)
    ensures
        match r {
            Some(i) => spec_find_dyn(entries@, name) == i && i < entries@.len()
                && entries@[i as int].0 == name,
            None => spec_find_dyn(entries@, name) == -1,
        },
{
    let n = entries.len();
    let mut i: usize = 0;
    while i < n
        invariant
            i <= n,
            n == entries@.len(),
            forall|k: int| 0 <= k < i ==> (#[trigger] entries@[k]).0 != name,
        decreases n - i,
    {
        if entries[i].0 == name {
            proof {
                lemma_find_dyn_char(entries@, name, i as int);
            }
            return Some(i);
        }
        i = i + 1;
    }
    proof {
        lemma_find_dyn_none(entries@, name);
    }
    None
}

} // verus!
