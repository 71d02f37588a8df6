//! The interpreter and the object runtime on concrete programs: virtual
//! dispatch through an overriding subclass, slot storage, thrown values
//! and try-regions, and jump validation.

use avm2_core::class::{ClassDef, TraitDecl, TraitKind};
use avm2_core::interp::{CallOutcome, FatalError, MethodBody, Op, TryRegion};
use avm2_core::property::QName;
use avm2_core::runtime::{Avm, AvmError};
use avm2_core::value::Value;

fn name(avm: &mut Avm, s: &str) -> usize {
    avm.registry.intern(QName::new(Vec::new(), s.as_bytes().to_vec()))
}

fn body(code: Vec<Op>, n_locals: u32) -> MethodBody {
    MethodBody { code, n_locals, tries: Vec::new() }
}

/// The scenario: class A holds a number slot behind an accessor pair, and
/// subclass B overrides the getter to return the doubled slot. Setting 0,
/// then 5, then reading through the accessor yields 10 — dispatch follows
/// the object's class, not the reference's.
#[test]
fn overriding_getter_doubles_the_slot() {
    let mut avm = Avm::new();
    // getter of A: return slot 0
    let get_a = avm.add_method(body(vec![Op::GetSlot(0), Op::ReturnValue], 0));
    // setter of A: slot 0 = argument
    let set_a = avm.add_method(body(vec![Op::GetLocal(1), Op::SetSlot(0), Op::ReturnVoid],
        0));
    // getter of B: return slot 0 * 2
    let get_b = avm.add_method(body(vec![Op::GetSlot(0), Op::PushInt(2), Op::MulI,
        Op::ReturnValue], 0));

    let n_a = name(&mut avm, "A");
    let n_b = name(&mut avm, "B");
    let n_storage = name(&mut avm, "storage");
    let n_x = name(&mut avm, "x");
    let a = avm.registry
        .add_class(ClassDef {
            name: n_a,
            super_class: None,
            interfaces: Vec::new(),
            is_final: false,
            is_sealed: true,
            is_interface: false,
            instance_traits: vec![
                TraitDecl { name: n_storage, kind: TraitKind::Slot { declared_type: None } },
                TraitDecl { name: n_x, kind: TraitKind::Getter { method: get_a } },
                TraitDecl { name: n_x, kind: TraitKind::Setter { method: set_a } },
            ],
        })
        .unwrap();
    let b = avm.registry
        .add_class(ClassDef {
            name: n_b,
            super_class: Some(a),
            interfaces: Vec::new(),
            is_final: false,
            is_sealed: true,
            is_interface: false,
            instance_traits: vec![
                TraitDecl { name: n_x, kind: TraitKind::Getter { method: get_b } },
            ],
        })
        .unwrap();

    // the override reuses A's dispatch slot: same accessor entry, new body
    let vt_a = avm.registry.resolve_vtable(a).unwrap();
    let vt_b = avm.registry.resolve_vtable(b).unwrap();
    assert_eq!(vt_a.entries.iter().map(|(n, _)| *n).collect::<Vec<_>>(),
        vt_b.entries.iter().map(|(n, _)| *n).collect::<Vec<_>>());

    let obj = avm.construct_instance(b).unwrap();
    avm.set_property(obj, n_x, Value::Integer(0), 100).unwrap();
    assert_eq!(avm.get_property(obj, n_x, 100).unwrap(), Value::Integer(0));
    avm.set_property(obj, n_x, Value::Integer(5), 100).unwrap();
    // read through the accessor: the subclass body doubles the slot
    assert_eq!(avm.get_property(obj, n_x, 100).unwrap(), Value::Integer(10));
    // the same object through the superclass's view of the name uses the
    // same dispatch slot, so it reaches the overriding body too
    assert_eq!(vt_a.entries, vt_b.entries);
    // an instance of A itself still reads the undoubled slot
    let plain = avm.construct_instance(a).unwrap();
    avm.set_property(plain, n_x, Value::Integer(5), 100).unwrap();
    assert_eq!(avm.get_property(plain, n_x, 100).unwrap(), Value::Integer(5));
}

#[test]
fn dynamic_bag_keeps_insertion_order_and_sealed_class_rejects() {
    let mut avm = Avm::new();
    let n_open = name(&mut avm, "Open");
    let n_sealed = name(&mut avm, "Sealed");
    let n_p = name(&mut avm, "p");
    let n_q = name(&mut avm, "q");
    let open = avm.registry
        .add_class(ClassDef {
            name: n_open,
            super_class: None,
            interfaces: Vec::new(),
            is_final: false,
            is_sealed: false,
            is_interface: false,
            instance_traits: Vec::new(),
        })
        .unwrap();
    let sealed = avm.registry
        .add_class(ClassDef {
            name: n_sealed,
            super_class: None,
            interfaces: Vec::new(),
            is_final: false,
            is_sealed: true,
            is_interface: false,
            instance_traits: Vec::new(),
        })
        .unwrap();
    let o = avm.construct_instance(open).unwrap();
    assert_eq!(avm.get_property(o, n_p, 10).unwrap(), Value::Undefined);
    avm.set_property(o, n_p, Value::Integer(1), 10).unwrap();
    avm.set_property(o, n_q, Value::Integer(2), 10).unwrap();
    avm.set_property(o, n_p, Value::Integer(3), 10).unwrap();
    assert_eq!(avm.get_property(o, n_p, 10).unwrap(), Value::Integer(3));
    assert_eq!(avm.get_property(o, n_q, 10).unwrap(), Value::Integer(2));
    assert_eq!(avm.has_property(o, n_p).unwrap(), true);
    assert_eq!(avm.delete_property(o, n_p).unwrap(), true);
    assert_eq!(avm.has_property(o, n_p).unwrap(), false);
    assert_eq!(avm.delete_property(o, n_p).unwrap(), false);

    let s = avm.construct_instance(sealed).unwrap();
    assert!(matches!(avm.get_property(s, n_p, 10),
        Err(AvmError::ReferenceError { .. })));
    assert!(matches!(avm.set_property(s, n_p, Value::Null, 10),
        Err(AvmError::ReferenceError { .. })));
}

#[test]
fn constant_slot_is_write_once() {
    let mut avm = Avm::new();
    let n_c = name(&mut avm, "WithConst");
    let n_k = name(&mut avm, "k");
    let c = avm.registry
        .add_class(ClassDef {
            name: n_c,
            super_class: None,
            interfaces: Vec::new(),
            is_final: false,
            is_sealed: true,
            is_interface: false,
            instance_traits: vec![
                TraitDecl { name: n_k, kind: TraitKind::ConstSlot { declared_type: None } },
            ],
        })
        .unwrap();
    let o = avm.construct_instance(c).unwrap();
    avm.set_property(o, n_k, Value::Integer(9), 10).unwrap();
    assert_eq!(avm.get_property(o, n_k, 10).unwrap(), Value::Integer(9));
    assert!(matches!(avm.set_property(o, n_k, Value::Integer(8), 10),
        Err(AvmError::WriteToConst { .. })));
}

#[test]
fn thrown_value_lands_in_matching_try_region() {
    let mut avm = Avm::new();
    let n_c = name(&mut avm, "Thrower");
    let n_m = name(&mut avm, "m");
    // throw 7 inside a protected region; the handler returns thrown + 1
    let m = avm.add_method(MethodBody {
        code: vec![
            Op::PushInt(7),
            Op::Throw,
            Op::ReturnVoid,
            // handler target: stack holds the thrown value
            Op::PushInt(1),
            Op::AddI,
            Op::ReturnValue,
        ],
        n_locals: 0,
        tries: vec![TryRegion { from: 0, to: 2, target: 3, catch_class: None }],
    });
    let c = avm.registry
        .add_class(ClassDef {
            name: n_c,
            super_class: None,
            interfaces: Vec::new(),
            is_final: false,
            is_sealed: true,
            is_interface: false,
            instance_traits: vec![
                TraitDecl { name: n_m, kind: TraitKind::Method { method: m } },
            ],
        })
        .unwrap();
    let o = avm.construct_instance(c).unwrap();
    let r = avm.call_property(o, n_m, &Vec::new(), 100).unwrap();
    assert_eq!(r, Value::Integer(8));
}

#[test]
fn uncaught_throw_propagates_to_the_caller() {
    let mut avm = Avm::new();
    let n_c = name(&mut avm, "Thrower");
    let n_m = name(&mut avm, "m");
    let m = avm.add_method(body(vec![Op::PushInt(7), Op::Throw, Op::ReturnVoid], 0));
    let c = avm.registry
        .add_class(ClassDef {
            name: n_c,
            super_class: None,
            interfaces: Vec::new(),
            is_final: false,
            is_sealed: true,
            is_interface: false,
            instance_traits: vec![
                TraitDecl { name: n_m, kind: TraitKind::Method { method: m } },
            ],
        })
        .unwrap();
    let o = avm.construct_instance(c).unwrap();
    assert_eq!(avm.call_property(o, n_m, &Vec::new(), 100),
        Err(AvmError::Thrown(Value::Integer(7))));
}

#[test]
fn out_of_bounds_jump_is_fatal_not_catchable() {
    let mut avm = Avm::new();
    let n_c = name(&mut avm, "BadJumper");
    let n_m = name(&mut avm, "m");
    let m = avm.add_method(MethodBody {
        code: vec![Op::Jump(100), Op::ReturnVoid],
        n_locals: 0,
        tries: vec![TryRegion { from: 0, to: 2, target: 1, catch_class: None }],
    });
    let c = avm.registry
        .add_class(ClassDef {
            name: n_c,
            super_class: None,
            interfaces: Vec::new(),
            is_final: false,
            is_sealed: true,
            is_interface: false,
            instance_traits: vec![
                TraitDecl { name: n_m, kind: TraitKind::Method { method: m } },
            ],
        })
        .unwrap();
    let o = avm.construct_instance(c).unwrap();
    assert_eq!(avm.call_property(o, n_m, &Vec::new(), 100),
        Err(AvmError::Machine(FatalError::BadJump)));
}

#[test]
fn integer_ops_wrap_and_compare() {
    let mut avm = Avm::new();
    let n_c = name(&mut avm, "Arith");
    let n_m = name(&mut avm, "m");
    // (arg0 + arg1) * 3, wrapping
    let m = avm.add_method(body(vec![
        Op::GetLocal(1),
        Op::GetLocal(2),
        Op::AddI,
        Op::PushInt(3),
        Op::MulI,
        Op::ReturnValue,
    ], 0));
    let c = avm.registry
        .add_class(ClassDef {
            name: n_c,
            super_class: None,
            interfaces: Vec::new(),
            is_final: false,
            is_sealed: true,
            is_interface: false,
            instance_traits: vec![
                TraitDecl { name: n_m, kind: TraitKind::Method { method: m } },
            ],
        })
        .unwrap();
    let o = avm.construct_instance(c).unwrap();
    let args = vec![Value::Integer(4), Value::Integer(5)];
    assert_eq!(avm.call_property(o, n_m, &args, 100).unwrap(), Value::Integer(27));
    let args2 = vec![Value::Integer(i32::MAX), Value::Integer(1)];
    assert_eq!(avm.call_property(o, n_m, &args2, 100).unwrap(),
        Value::Integer(i32::MIN.wrapping_mul(3)));
}

#[test]
fn fuel_exhaustion_is_an_execution_limit() {
    let mut avm = Avm::new();
    let n_c = name(&mut avm, "Spinner");
    let n_m = name(&mut avm, "m");
    // an infinite loop: jump back to itself
    let m = avm.add_method(body(vec![Op::Jump(-1)], 0));
    let c = avm.registry
        .add_class(ClassDef {
            name: n_c,
            super_class: None,
            interfaces: Vec::new(),
            is_final: false,
            is_sealed: true,
            is_interface: false,
            instance_traits: vec![
                TraitDecl { name: n_m, kind: TraitKind::Method { method: m } },
            ],
        })
        .unwrap();
    let o = avm.construct_instance(c).unwrap();
    assert_eq!(avm.call_property(o, n_m, &Vec::new(), 50),
        Err(AvmError::Machine(FatalError::ExecutionLimit)));
}
