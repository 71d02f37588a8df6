//! Trait resolution on concrete class hierarchies: memoized determinism,
//! dispatch-slot reuse on override, and the interface obligation.

use avm2_core::class::{ClassDef, ClassError, ClassRegistry, TraitDecl, TraitKind};
use avm2_core::property::{LazyClass, Property, QName};

fn name(reg: &mut ClassRegistry, s: &str) -> usize {
    reg.intern(QName::new(Vec::new(), s.as_bytes().to_vec()))
}

fn simple_class(name: usize, super_class: Option<usize>, traits: Vec<TraitDecl>)
    -> ClassDef {
    ClassDef {
        name,
        super_class,
        interfaces: Vec::new(),
        is_final: false,
        is_sealed: true,
        is_interface: false,
        instance_traits: traits,
    }
}

#[test]
fn resolving_twice_yields_identical_tables() {
    let mut reg = ClassRegistry::new();
    let n_a = name(&mut reg, "A");
    let n_m = name(&mut reg, "m");
    let n_s = name(&mut reg, "s");
    let a = reg
        .add_class(simple_class(n_a, None, vec![
            TraitDecl { name: n_m, kind: TraitKind::Method { method: 0 } },
            TraitDecl { name: n_s, kind: TraitKind::Slot { declared_type: None } },
        ]))
        .unwrap();
    let first = reg.resolve_vtable(a).unwrap();
    let second = reg.resolve_vtable(a).unwrap();
    assert_eq!(first, second);
    let third = reg.resolve_vtable(a).unwrap();
    assert_eq!(first, third);
}

#[test]
fn override_reuses_the_inherited_dispatch_slot() {
    let mut reg = ClassRegistry::new();
    let n_a = name(&mut reg, "A");
    let n_b = name(&mut reg, "B");
    let n_m = name(&mut reg, "m");
    let n_other = name(&mut reg, "other");
    let a = reg
        .add_class(simple_class(n_a, None, vec![
            TraitDecl { name: n_m, kind: TraitKind::Method { method: 10 } },
            TraitDecl { name: n_other, kind: TraitKind::Method { method: 11 } },
        ]))
        .unwrap();
    let b = reg
        .add_class(simple_class(n_b, Some(a), vec![
            TraitDecl { name: n_m, kind: TraitKind::Method { method: 20 } },
        ]))
        .unwrap();
    let vt_a = reg.resolve_vtable(a).unwrap();
    let vt_b = reg.resolve_vtable(b).unwrap();

    let disp_a = vt_a
        .entries
        .iter()
        .find(|(n, _)| *n == n_m)
        .map(|(_, p)| match p {
            Property::Method { disp_id } => *disp_id,
            _ => panic!("expected a method"),
        })
        .unwrap();
    let disp_b = vt_b
        .entries
        .iter()
        .find(|(n, _)| *n == n_m)
        .map(|(_, p)| match p {
            Property::Method { disp_id } => *disp_id,
            _ => panic!("expected a method"),
        })
        .unwrap();
    // the same dispatch slot, now carrying the overriding body
    assert_eq!(disp_a, disp_b);
    assert_eq!(vt_a.methods[disp_a as usize], 10);
    assert_eq!(vt_b.methods[disp_b as usize], 20);
    // the names keep their positions: the subclass added nothing
    assert_eq!(vt_a.entries, vt_b.entries);
}

#[test]
fn incompatible_override_is_a_construction_error() {
    let mut reg = ClassRegistry::new();
    let n_a = name(&mut reg, "A");
    let n_b = name(&mut reg, "B");
    let n_m = name(&mut reg, "m");
    let a = reg
        .add_class(simple_class(n_a, None, vec![
            TraitDecl { name: n_m, kind: TraitKind::Slot { declared_type: None } },
        ]))
        .unwrap();
    let b = reg
        .add_class(simple_class(n_b, Some(a), vec![
            TraitDecl { name: n_m, kind: TraitKind::Method { method: 0 } },
        ]))
        .unwrap();
    assert_eq!(
        reg.resolve_vtable(b),
        Err(ClassError::IncompatibleOverride { class: n_b, trait_name: n_m })
    );
}

#[test]
fn missing_interface_method_fails_at_construction() {
    let mut reg = ClassRegistry::new();
    let n_iface = name(&mut reg, "IGreeter");
    let n_c = name(&mut reg, "C");
    let n_greet = name(&mut reg, "greet");
    let n_unrelated = name(&mut reg, "unrelated");
    let iface = reg
        .add_class(ClassDef {
            name: n_iface,
            super_class: None,
            interfaces: Vec::new(),
            is_final: false,
            is_sealed: false,
            is_interface: true,
            instance_traits: vec![
                TraitDecl { name: n_greet, kind: TraitKind::Method { method: 0 } },
            ],
        })
        .unwrap();
    let c = reg
        .add_class(ClassDef {
            name: n_c,
            super_class: None,
            interfaces: vec![iface],
            is_final: false,
            is_sealed: true,
            is_interface: false,
            instance_traits: vec![
                TraitDecl { name: n_unrelated, kind: TraitKind::Method { method: 1 } },
            ],
        })
        .unwrap();
    assert_eq!(
        reg.resolve_vtable(c),
        Err(ClassError::InterfaceNotImplemented {
            class: n_c,
            interface: n_iface,
            method: n_greet
        })
    );
}

#[test]
fn implemented_interface_resolves() {
    let mut reg = ClassRegistry::new();
    let n_iface = name(&mut reg, "IGreeter");
    let n_c = name(&mut reg, "C");
    let n_greet = name(&mut reg, "greet");
    let iface = reg
        .add_class(ClassDef {
            name: n_iface,
            super_class: None,
            interfaces: Vec::new(),
            is_final: false,
            is_sealed: false,
            is_interface: true,
            instance_traits: vec![
                TraitDecl { name: n_greet, kind: TraitKind::Method { method: 0 } },
            ],
        })
        .unwrap();
    let c = reg
        .add_class(ClassDef {
            name: n_c,
            super_class: None,
            interfaces: vec![iface],
            is_final: false,
            is_sealed: true,
            is_interface: false,
            instance_traits: vec![
                TraitDecl { name: n_greet, kind: TraitKind::Method { method: 3 } },
            ],
        })
        .unwrap();
    assert!(reg.resolve_vtable(c).is_ok());
}

#[test]
fn getter_setter_pair_share_an_entry() {
    let mut reg = ClassRegistry::new();
    let n_a = name(&mut reg, "A");
    let n_x = name(&mut reg, "x");
    let a = reg
        .add_class(simple_class(n_a, None, vec![
            TraitDecl { name: n_x, kind: TraitKind::Getter { method: 1 } },
            TraitDecl { name: n_x, kind: TraitKind::Setter { method: 2 } },
        ]))
        .unwrap();
    let vt = reg.resolve_vtable(a).unwrap();
    assert_eq!(vt.entries.len(), 1);
    match vt.entries[0].1 {
        Property::Virtual { get: Some(g), set: Some(s) } => {
            assert_eq!(vt.methods[g as usize], 1);
            assert_eq!(vt.methods[s as usize], 2);
        }
        _ => panic!("expected an accessor pair"),
    }
}

#[test]
fn slots_inherit_their_offsets() {
    let mut reg = ClassRegistry::new();
    let n_a = name(&mut reg, "A");
    let n_b = name(&mut reg, "B");
    let n_p = name(&mut reg, "p");
    let n_q = name(&mut reg, "q");
    let a = reg
        .add_class(simple_class(n_a, None, vec![
            TraitDecl { name: n_p, kind: TraitKind::Slot { declared_type: None } },
        ]))
        .unwrap();
    let b = reg
        .add_class(simple_class(n_b, Some(a), vec![
            TraitDecl { name: n_q, kind: TraitKind::Slot { declared_type: None } },
        ]))
        .unwrap();
    let vt_a = reg.resolve_vtable(a).unwrap();
    let vt_b = reg.resolve_vtable(b).unwrap();
    assert_eq!(vt_a.n_slots, 1);
    assert_eq!(vt_b.n_slots, 2);
}

#[test]
fn lazy_type_resolution_memoizes_once() {
    let mut reg = ClassRegistry::new();
    let n_t = name(&mut reg, "T");
    let n_missing = name(&mut reg, "Missing");
    let t = reg.add_class(simple_class(n_t, None, Vec::new())).unwrap();
    let mut lc = LazyClass::lazy(n_t);
    assert_eq!(lc.get(&reg), Ok(t));
    // memoized: the handle is now resolved in place
    assert_eq!(lc, LazyClass::Class(t));
    assert_eq!(lc.get(&reg), Ok(t));
    // a missing class is an explicit error, and nothing is memoized
    let mut missing = LazyClass::lazy(n_missing);
    assert_eq!(missing.get(&reg), Err(ClassError::NoSuchType { name: n_missing }));
    assert_eq!(missing, LazyClass::Name(n_missing));
}
