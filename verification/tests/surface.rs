//! The utility namespace, the XML tree, the action queue, and the
//! script-facing builtin surface, on concrete values.

use avm2_core::context::{ActionQueue, ActionType};
use avm2_core::globals;
use avm2_core::property::QName;
use avm2_core::runtime::{Avm, AvmError};
use avm2_core::utils::{clear_interval, escape_multi_byte, handle_percent, qualified_name,
    set_interval, set_timeout, timer_value, unescape_multi_byte, TimerError, Timers};
use avm2_core::value::{StringTable, Value};
use avm2_core::xml::XmlDoc;

#[test]
fn escaping_round_trip_on_sample_strings() {
    let s = b"hello world/1+2".to_vec();
    let escaped = escape_multi_byte(&s);
    assert_eq!(escaped, b"hello%20world%2F1%2B2".to_vec());
    assert_eq!(unescape_multi_byte(&escaped), s);
    assert_eq!(handle_percent(b'2', b'0'), Some(0x20));
    assert_eq!(handle_percent(b'g', b'0'), None);
    // a NUL ends the input
    assert_eq!(escape_multi_byte(&b"ab\0cd".to_vec()), b"ab".to_vec());
    // a malformed escape is copied as it is
    assert_eq!(unescape_multi_byte(&b"a%zz".to_vec()), b"a%zz".to_vec());
}

#[test]
fn timers_schedule_and_cancel() {
    let mut timers = Timers::new();
    let tbl = StringTable::new();
    let args = vec![Value::Object(3), Value::Integer(250)];
    let id = match set_interval(&mut timers, &tbl, &args).unwrap() {
        Value::Integer(id) => id,
        other => panic!("expected an id, got {:?}", other),
    };
    // the table gained exactly the registered timer
    assert_eq!(timers.count(), 1);
    let t0 = timers.get(0).unwrap();
    assert_eq!(t0.id, id);
    assert_eq!(t0.callback, 3);
    assert_eq!(t0.interval, 250);
    assert!(!t0.one_shot);
    let id2 = match set_timeout(&mut timers, &tbl, &args).unwrap() {
        Value::Integer(id) => id,
        other => panic!("expected an id, got {:?}", other),
    };
    assert_ne!(id, id2);
    assert_eq!(timers.count(), 2);
    assert!(timers.get(1).unwrap().one_shot);
    // cancelling removes the timer with that id and keeps the other
    let clear_args = vec![Value::Integer(id)];
    assert_eq!(clear_interval(&mut timers, &tbl, &clear_args).unwrap(), Value::Undefined);
    assert_eq!(timers.count(), 1);
    assert_eq!(timers.get(0).unwrap().id, id2);
    // too few or ill-typed arguments are explicit errors
    assert!(set_interval(&mut timers, &tbl, &vec![Value::Object(3)]).is_err());
    assert!(set_interval(&mut timers, &tbl,
        &vec![Value::Integer(1), Value::Integer(2)]).is_err());
    // an object interval or cancel id would need its primitive hook and
    // is an explicit error, never a silent zero
    assert!(matches!(set_interval(&mut timers, &tbl,
        &vec![Value::Object(3), Value::Object(4)]),
        Err(TimerError::ArgumentAnObject)));
    assert!(matches!(clear_interval(&mut timers, &tbl, &vec![Value::Object(1)]),
        Err(TimerError::ArgumentAnObject)));
    assert_eq!(timers.count(), 1);
}

#[test]
fn timer_value_wraps_the_elapsed_milliseconds() {
    assert_eq!(timer_value(1500, 500), 1000);
    assert_eq!(timer_value(500, 1500), 0);
    assert_eq!(timer_value(0x1_0000_0005, 4), 1);
}

#[test]
fn xml_tree_builds_and_serializes() {
    let mut tbl = StringTable::new();
    let mut doc = XmlDoc::new();
    let s_hi = tbl.intern(b"hi".to_vec());
    let s_item = tbl.intern(b"item".to_vec());
    let s_root = tbl.intern(b"root".to_vec());
    let s_id = tbl.intern(b"id".to_vec());
    let s_one = tbl.intern(b"1".to_vec());
    let text = doc.new_text(s_hi);
    let item = doc.new_element(s_item, Vec::new(), vec![text]).unwrap();
    let root = doc
        .new_element(s_root, vec![(s_id, s_one)], vec![item])
        .unwrap();
    assert_eq!(doc.to_xml_string(&tbl, root),
        b"<root id=\"1\"><item>hi</item></root>".to_vec());
    assert_eq!(doc.name(root), Some(s_root));
    assert_eq!(doc.local_name(text), None);
    assert_eq!(doc.children(root), vec![item]);
    assert_eq!(doc.child(root, s_item), vec![item]);
    assert_eq!(doc.child(root, s_root), Vec::<usize>::new());
    assert_eq!(doc.elements(item), Vec::<usize>::new());
    assert_eq!(doc.attributes(root), vec![(s_id, s_one)]);
    assert_eq!(doc.attribute(root, s_id), Some(s_one));
    assert_eq!(doc.attribute(root, s_item), None);
}

#[test]
fn xml_append_child_and_the_constructor_rule() {
    let mut tbl = StringTable::new();
    let mut doc = XmlDoc::new();
    let s_a = tbl.intern(b"a".to_vec());
    let s_b = tbl.intern(b"b".to_vec());
    let s_hi = tbl.intern(b"hi".to_vec());
    // the ordinary build order: the element first, its content afterwards
    let parent = doc.new_element(s_a, Vec::new(), Vec::new()).unwrap();
    let child = doc.new_element(s_b, Vec::new(), Vec::new()).unwrap();
    doc.append_child(parent, child).unwrap();
    let text = doc.new_text(s_hi);
    doc.append_child(child, text).unwrap();
    assert_eq!(doc.to_xml_string(&tbl, parent), b"<a><b>hi</b></a>".to_vec());
    // adopting an ancestor would close a cycle and is refused
    assert!(doc.append_child(child, parent).is_err());
    assert!(doc.append_child(parent, parent).is_err());
    // a text node takes no children
    assert!(doc.append_child(text, child).is_err());
    // the constructor: empty input makes an empty text node, one node is
    // taken as it is, several are an error
    let none: Vec<usize> = Vec::new();
    let t = doc.init(&mut tbl, &none).unwrap();
    assert_eq!(doc.to_xml_string(&tbl, t), Vec::<u8>::new());
    assert_eq!(doc.init(&mut tbl, &vec![child]).unwrap(), child);
    assert!(doc.init(&mut tbl, &vec![child, parent]).is_err());
}

#[test]
fn action_queue_drains_by_priority_then_order() {
    let mut q = ActionQueue::new();
    q.queue_action(1, ActionType::Normal { bytecode: vec![1] }, false);
    q.queue_action(2, ActionType::Initialize { bytecode: vec![2] }, false);
    q.queue_action(3, ActionType::Construct { constructor: None, events: Vec::new() },
        false);
    q.queue_action(4, ActionType::Initialize { bytecode: vec![4] }, true);
    // initialize actions first, in order; then construct; then normal
    assert_eq!(q.pop_action().unwrap().clip, 2);
    assert_eq!(q.pop_action().unwrap().clip, 4);
    assert_eq!(q.pop_action().unwrap().clip, 3);
    assert_eq!(q.pop_action().unwrap().clip, 1);
    assert!(q.pop_action().is_none());
}

#[test]
fn action_priorities() {
    assert_eq!(ActionType::Initialize { bytecode: Vec::new() }.priority(), 2);
    assert_eq!(ActionType::Construct { constructor: None, events: Vec::new() }.priority(),
        1);
    assert_eq!(ActionType::Normal { bytecode: Vec::new() }.priority(), 0);
    assert_eq!(ActionType::Method { object: 0, name: Vec::new(), args: Vec::new() }
        .priority(), 0);
    assert_eq!(ActionType::NotifyListeners { listener: Vec::new(), method: Vec::new(),
        args: Vec::new() }.priority(), 0);
}

#[test]
fn bitmap_surface_constructs_and_reads() {
    let tbl = StringTable::new();
    let args = vec![Value::Integer(3), Value::Integer(2), Value::Boolean(true),
        Value::Unsigned(0xFF102030)];
    let mut bd = globals::instance_init(&tbl, &args, 15).unwrap();
    assert_eq!(globals::width(&bd), Value::Integer(3));
    assert_eq!(globals::height(&bd), Value::Integer(2));
    assert_eq!(globals::transparent(&bd), Value::Boolean(true));
    let px = globals::get_pixel(&bd, &tbl,
        &vec![Value::Integer(0), Value::Integer(0)]).unwrap();
    assert_eq!(px, Value::Unsigned(0x0010_2030));
    globals::fill_rect(&mut bd, &tbl, &vec![Value::Integer(0), Value::Integer(0),
        Value::Integer(3), Value::Integer(2), Value::Unsigned(0xFF000000)]).unwrap();
    let px2 = globals::get_pixel(&bd, &tbl,
        &vec![Value::Integer(1), Value::Integer(1)]).unwrap();
    assert_eq!(px2, Value::Unsigned(0));
    assert_eq!(globals::class_init(), Value::Undefined);
    assert_eq!(globals::draw(), Value::Undefined);
    assert_eq!(globals::lock(), Value::Undefined);
    assert_eq!(globals::unlock(), Value::Undefined);
    // an oversized bitmap for the container version is refused
    assert!(globals::instance_init(&tbl,
        &vec![Value::Integer(3000), Value::Integer(1)], 9).is_err());
    assert!(globals::instance_init(&tbl,
        &vec![Value::Integer(3000), Value::Integer(3000)], 15).unwrap().width() == 3000);
    assert!(globals::instance_init(&tbl,
        &vec![Value::Integer(8191), Value::Integer(8191)], 15).is_err());
}

#[test]
fn bitmap_surface_copies_pixels() {
    let tbl = StringTable::new();
    let src = globals::instance_init(&tbl, &vec![Value::Integer(1), Value::Integer(1),
        Value::Boolean(true), Value::Unsigned(0xFFAA0000)], 15).unwrap();
    let mut dst = globals::instance_init(&tbl, &vec![Value::Integer(2), Value::Integer(2),
        Value::Boolean(true), Value::Unsigned(0)], 15).unwrap();
    globals::copy_pixels(&mut dst, &src, &tbl, &Value::Integer(0), &Value::Integer(0),
        &Value::Integer(1), &Value::Integer(1), &Value::Integer(1), &Value::Integer(1),
        false).unwrap();
    let px = globals::get_pixel(&dst, &tbl,
        &vec![Value::Integer(1), Value::Integer(1)]).unwrap();
    assert_eq!(px, Value::Unsigned(0x00AA0000));
}

#[test]
fn create_class_registers_a_resolvable_sealed_class() {
    let mut avm = Avm::new();
    let getter = avm.add_method(avm2_core::interp::MethodBody {
        code: vec![avm2_core::interp::Op::ReturnVoid],
        n_locals: 0,
        tries: Vec::new(),
    });
    let class = globals::create_class(&mut avm, getter, getter).unwrap();
    let vt = avm.registry.resolve_vtable(class).unwrap();
    // three accessors and six methods
    assert_eq!(vt.entries.len(), 9);
    let inst = avm.construct_instance(class).unwrap();
    let qn = globals::get_qualified_class_name(&mut avm, &Value::Object(inst)).unwrap();
    match qn {
        Value::Str(id) => assert_eq!(avm.strings.lookup(id).unwrap(),
            &b"flash.display::BitmapData".to_vec()),
        other => panic!("expected a string, got {:?}", other),
    }
}

#[test]
fn reflection_names() {
    let mut avm = Avm::new();
    assert_eq!(qualified_name(&b"flash.x".to_vec(), &b"Y".to_vec()),
        b"flash.x::Y".to_vec());
    assert_eq!(qualified_name(&Vec::new(), &b"Y".to_vec()), b"Y".to_vec());
    let null_name = globals::get_qualified_class_name(&mut avm, &Value::Null).unwrap();
    match null_name {
        Value::Str(id) => assert_eq!(avm.strings.lookup(id).unwrap(), &b"null".to_vec()),
        other => panic!("expected a string, got {:?}", other),
    }
    let void_name = globals::get_qualified_class_name(&mut avm, &Value::Undefined)
        .unwrap();
    match void_name {
        Value::Str(id) => assert_eq!(avm.strings.lookup(id).unwrap(), &b"void".to_vec()),
        other => panic!("expected a string, got {:?}", other),
    }
}

#[test]
fn definitions_are_found_by_qualified_name() {
    let mut avm = Avm::new();
    let getter = avm.add_method(avm2_core::interp::MethodBody {
        code: vec![avm2_core::interp::Op::ReturnVoid],
        n_locals: 0,
        tries: Vec::new(),
    });
    let class = globals::create_class(&mut avm, getter, getter).unwrap();
    let found = globals::get_definition_by_name(&mut avm,
        &b"flash.display::BitmapData".to_vec()).unwrap();
    match found {
        Value::Object(o) => {
            match avm.heap.get(o).unwrap().kind {
                avm2_core::heap::ObjKind::ClassObj(c) => assert_eq!(c, class),
                ref other => panic!("expected a class object, got {:?}", other),
            }
        }
        other => panic!("expected an object, got {:?}", other),
    }
    assert!(matches!(globals::get_definition_by_name(&mut avm,
        &b"no.such::Class".to_vec()), Err(AvmError::ReferenceError { .. })));
    // the superclass of a root class is null
    let inst = avm.construct_instance(class).unwrap();
    assert_eq!(globals::get_qualified_superclass_name(&mut avm,
        &Value::Object(inst)).unwrap(), Value::Null);
}

#[test]
fn worker_surface_functions() {
    let mut domain = avm2_core::worker::WorkerDomain::new_primordial();
    assert_eq!(globals::get_is_primordial(&domain, 0), Value::Boolean(true));
    let w = globals::create_worker(&mut domain);
    assert_eq!(globals::get_is_primordial(&domain, w), Value::Boolean(false));
    let ch = globals::create_message_channel(0, w);
    assert!(ch.send(avm2_core::channel::MessageChannelMessage::AMF3(vec![0]), 0).is_ok());
    assert_eq!(globals::get_current(5), Value::Object(5));
    assert_eq!(globals::native_instance_init(), Value::Undefined);
    assert!(globals::messagechannel_allocator().is_err());
    assert!(globals::worker_allocator().is_err());
    assert_eq!(globals::get_dynamic_property_writer(), Value::Undefined);
    assert_eq!(globals::set_dynamic_property_writer(), Value::Undefined);
}

#[test]
fn describe_type_renders_the_class_shape() {
    let mut avm = Avm::new();
    let getter = avm.add_method(avm2_core::interp::MethodBody {
        code: vec![avm2_core::interp::Op::ReturnVoid],
        n_locals: 0,
        tries: Vec::new(),
    });
    let class = globals::create_class(&mut avm, getter, getter).unwrap();
    let inst = avm.construct_instance(class).unwrap();
    let markup = globals::describe_type(&mut avm, &Value::Object(inst)).unwrap();
    let text = String::from_utf8(markup).unwrap();
    assert!(text.starts_with("<type name=\"flash.display::BitmapData\" base=\"*\" \
isDynamic=\"false\" isFinal=\"false\" isStatic=\"false\">"), "got: {}", text);
    assert!(text.contains("<implementsInterface type=\"flash.display::IBitmapDrawable\"/>"),
        "got: {}", text);
    assert!(text.contains("<accessor name=\"width\" access=\"readonly\"/>"), "got: {}",
        text);
    assert!(text.contains("<method name=\"getPixel\"/>"), "got: {}", text);
    assert!(text.ends_with("</type>"), "got: {}", text);
    // the description of the class object itself is static
    let class_obj = globals::get_definition_by_name(&mut avm,
        &b"flash.display::BitmapData".to_vec()).unwrap();
    let markup2 = globals::describe_type(&mut avm, &class_obj).unwrap();
    let text2 = String::from_utf8(markup2).unwrap();
    assert!(text2.contains("isStatic=\"true\""), "got: {}", text2);
    // a primitive has no description
    assert!(globals::describe_type(&mut avm, &Value::Integer(3)).is_err());
}

#[test]
fn property_name_arguments_coerce_to_public_names() {
    let mut avm = Avm::new();
    let sid = avm.strings.intern(b"item".to_vec());
    let n1 = globals::name_to_multiname(&mut avm, &Value::Str(sid)).unwrap();
    let q1 = avm.registry.name_of(n1).unwrap();
    assert_eq!(q1.name, b"item".to_vec());
    assert_eq!(q1.ns, Vec::<u8>::new());
    let n2 = globals::name_to_multiname(&mut avm, &Value::Integer(3)).unwrap();
    let q2 = avm.registry.name_of(n2).unwrap();
    assert_eq!(q2.name, b"3".to_vec());
    assert!(globals::name_to_multiname(&mut avm, &Value::Object(0)).is_err());
}


#[test]
fn describe_type_is_repeatable() {
    let mut avm = Avm::new();
    let getter = avm.add_method(avm2_core::interp::MethodBody {
        code: vec![avm2_core::interp::Op::ReturnVoid],
        n_locals: 0,
        tries: Vec::new(),
    });
    let class = globals::create_class(&mut avm, getter, getter).unwrap();
    let inst = avm.construct_instance(class).unwrap();
    let first = globals::describe_type(&mut avm, &Value::Object(inst)).unwrap();
    let second = globals::describe_type(&mut avm, &Value::Object(inst)).unwrap();
    assert_eq!(first, second);
}

#[test]
fn name_arguments_render_numbers_and_reject_fractions() {
    let mut avm = Avm::new();
    let n = globals::name_to_multiname(&mut avm, &Value::Unsigned(77)).unwrap();
    assert_eq!(avm.registry.name_of(n).unwrap().name, b"77".to_vec());
    let n2 = globals::name_to_multiname(&mut avm,
        &Value::Number((12f64).to_bits())).unwrap();
    assert_eq!(avm.registry.name_of(n2).unwrap().name, b"12".to_vec());
    assert!(globals::name_to_multiname(&mut avm,
        &Value::Number((0.5f64).to_bits())).is_err());
}

#[test]
fn fill_rect_without_a_color_leaves_the_bitmap_unchanged() {
    let tbl = StringTable::new();
    let mut bd = globals::instance_init(&tbl, &vec![Value::Integer(2), Value::Integer(2),
        Value::Boolean(true), Value::Unsigned(0xFF102030)], 15).unwrap();
    // the method ignores a call without its colour argument
    let r = globals::fill_rect(&mut bd, &tbl, &vec![Value::Integer(0), Value::Integer(0),
        Value::Integer(2), Value::Integer(2)]);
    assert_eq!(r.unwrap(), Value::Undefined);
    let px = globals::get_pixel(&bd, &tbl,
        &vec![Value::Integer(0), Value::Integer(0)]).unwrap();
    assert_eq!(px, Value::Unsigned(0x0010_2030));
    // even object rectangle arguments are never looked at without a colour
    let r2 = globals::fill_rect(&mut bd, &tbl, &vec![Value::Object(9)]);
    assert_eq!(r2.unwrap(), Value::Undefined);
    let px2 = globals::get_pixel(&bd, &tbl,
        &vec![Value::Integer(0), Value::Integer(0)]).unwrap();
    assert_eq!(px2, Value::Unsigned(0x0010_2030));
}

#[test]
fn object_transparency_argument_coerces_to_true() {
    let tbl = StringTable::new();
    // every object is truthy, so an object transparency argument succeeds
    let bd = globals::instance_init(&tbl, &vec![Value::Integer(2), Value::Integer(2),
        Value::Object(7)], 15).unwrap();
    assert_eq!(globals::transparent(&bd), Value::Boolean(true));
    // the numeric arguments still need their primitive hooks
    assert!(globals::instance_init(&tbl,
        &vec![Value::Object(0), Value::Integer(1)], 15).is_err());
    assert!(globals::instance_init(&tbl, &vec![Value::Integer(1), Value::Integer(1),
        Value::Boolean(true), Value::Object(2)], 15).is_err());
}

#[test]
fn fill_color_coerces_identically_from_signed_and_unsigned() {
    // the colour argument goes through the 32-bit coercion, so the same
    // bit pattern given as a signed or an unsigned value fills identically
    let tbl = StringTable::new();
    let mk = || globals::instance_init(&tbl, &vec![Value::Integer(2), Value::Integer(2),
        Value::Boolean(true), Value::Unsigned(0)], 15).unwrap();
    let mut a = mk();
    let mut b = mk();
    let n: i32 = -1;
    globals::fill_rect(&mut a, &tbl, &vec![Value::Integer(0), Value::Integer(0),
        Value::Integer(2), Value::Integer(2), Value::Integer(n)]).unwrap();
    globals::fill_rect(&mut b, &tbl, &vec![Value::Integer(0), Value::Integer(0),
        Value::Integer(2), Value::Integer(2), Value::Unsigned(n as u32)]).unwrap();
    for y in 0..2i32 {
        for x in 0..2i32 {
            assert_eq!(a.get_pixel32_raw(x as u32, y as u32),
                b.get_pixel32_raw(x as u32, y as u32));
        }
    }
}
