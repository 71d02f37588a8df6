//! The message codec and the worker channels on concrete traffic: the
//! round trip of a plain object, endpoint enforcement, the non-blocking
//! empty receive, the primordial receive timeout, and wire compatibility
//! with an independent reader of the same format.

use avm2_core::amf::{decode, encode, AmfValue};
use avm2_core::channel::{receive, send, value_to_message, ChannelError,
    MessageChannelMessage, MessageChannelObject, PRIMORDIAL_RECEIVE_TIMEOUT_MS};
use avm2_core::class::ClassDef;
use avm2_core::property::QName;
use avm2_core::runtime::Avm;
use avm2_core::value::Value;
use avm2_core::worker::{WorkerDomain, WorkerState};

fn plain_class(avm: &mut Avm) -> usize {
    let n = avm.registry.intern(QName::new(Vec::new(), b"Object".to_vec()));
    avm.registry
        .add_class(ClassDef {
            name: n,
            super_class: None,
            interfaces: Vec::new(),
            is_final: false,
            is_sealed: false,
            is_interface: false,
            instance_traits: Vec::new(),
        })
        .unwrap()
}

#[test]
fn codec_round_trips_a_plain_object() {
    let v = AmfValue::Object(vec![
        (b"x".to_vec(), AmfValue::Integer(1)),
        (b"y".to_vec(), AmfValue::Str(b"a".to_vec())),
    ]);
    let mut bytes = Vec::new();
    encode(&v, &mut bytes);
    let (back, used) = decode(&bytes, 0, bytes.len() as u64 + 1).unwrap();
    assert_eq!(used, bytes.len());
    match back {
        AmfValue::Object(pairs) => {
            assert_eq!(pairs.len(), 2);
            assert_eq!(pairs[0].0, b"x".to_vec());
            assert!(matches!(pairs[0].1, AmfValue::Integer(1)));
            assert_eq!(pairs[1].0, b"y".to_vec());
            match &pairs[1].1 {
                AmfValue::Str(s) => assert_eq!(*s, b"a".to_vec()),
                other => panic!("expected a string, got {:?}", other),
            }
        }
        other => panic!("expected an object, got {:?}", other),
    }
}

#[test]
fn codec_round_trips_primitives_and_nesting() {
    let v = AmfValue::Object(vec![
        (b"u".to_vec(), AmfValue::Undefined),
        (b"n".to_vec(), AmfValue::Null),
        (b"t".to_vec(), AmfValue::Boolean(true)),
        (b"f".to_vec(), AmfValue::Boolean(false)),
        (b"neg".to_vec(), AmfValue::Integer(-268435456)),
        (b"pos".to_vec(), AmfValue::Integer(268435455)),
        (b"d".to_vec(), AmfValue::Double((2.5f64).to_bits())),
        (b"inner".to_vec(), AmfValue::Object(vec![
            (b"k".to_vec(), AmfValue::Integer(7)),
        ])),
    ]);
    let mut bytes = Vec::new();
    encode(&v, &mut bytes);
    let (back, used) = decode(&bytes, 0, bytes.len() as u64 + 1).unwrap();
    assert_eq!(used, bytes.len());
    let pairs = match back {
        AmfValue::Object(pairs) => pairs,
        other => panic!("expected an object, got {:?}", other),
    };
    assert!(matches!(pairs[0].1, AmfValue::Undefined));
    assert!(matches!(pairs[1].1, AmfValue::Null));
    assert!(matches!(pairs[2].1, AmfValue::Boolean(true)));
    assert!(matches!(pairs[3].1, AmfValue::Boolean(false)));
    assert!(matches!(pairs[4].1, AmfValue::Integer(-268435456)));
    assert!(matches!(pairs[5].1, AmfValue::Integer(268435455)));
    match pairs[6].1 {
        AmfValue::Double(d) => assert_eq!(d, (2.5f64).to_bits()),
        ref other => panic!("expected a double, got {:?}", other),
    }
    match &pairs[7].1 {
        AmfValue::Object(inner) => assert!(matches!(inner[0].1, AmfValue::Integer(7))),
        other => panic!("expected an object, got {:?}", other),
    }
}

#[test]
fn an_independent_reader_decodes_the_same_wire_bytes() {
    // primitives, decoded by a separate implementation of the format
    let mut bytes = Vec::new();
    encode(&AmfValue::Integer(300), &mut bytes);
    let mut dec = flash_lso::amf3::read::AMF3Decoder::default();
    let (_, v) = dec.parse_single_element(&bytes).unwrap();
    assert_eq!(v, flash_lso::types::Value::Integer(300));

    let mut bytes2 = Vec::new();
    encode(&AmfValue::Str(b"hi".to_vec()), &mut bytes2);
    let mut dec2 = flash_lso::amf3::read::AMF3Decoder::default();
    let (_, v2) = dec2.parse_single_element(&bytes2).unwrap();
    assert_eq!(v2, flash_lso::types::Value::String("hi".to_string()));

    let mut bytes3 = Vec::new();
    encode(&AmfValue::Double((1.5f64).to_bits()), &mut bytes3);
    let mut dec3 = flash_lso::amf3::read::AMF3Decoder::default();
    let (_, v3) = dec3.parse_single_element(&bytes3).unwrap();
    assert_eq!(v3, flash_lso::types::Value::Number(1.5));

    let mut bytes4 = Vec::new();
    encode(&AmfValue::Boolean(true), &mut bytes4);
    let mut dec4 = flash_lso::amf3::read::AMF3Decoder::default();
    let (_, v4) = dec4.parse_single_element(&bytes4).unwrap();
    assert_eq!(v4, flash_lso::types::Value::Bool(true));
}

#[test]
fn sending_a_plain_object_across_a_channel_restores_it() {
    let mut avm = Avm::new();
    let plain = plain_class(&mut avm);
    let mut domain = WorkerDomain::new_primordial();
    let worker_a = 0;
    let worker_b = domain.create_worker();
    let channel = MessageChannelObject::new(worker_a, worker_b);

    // build {x: 1, y: "a"} in the sender's heap
    let n_x = avm.registry.intern(QName::new(Vec::new(), b"x".to_vec()));
    let n_y = avm.registry.intern(QName::new(Vec::new(), b"y".to_vec()));
    let sid = avm.strings.intern(b"a".to_vec());
    let obj = avm.construct_instance(plain).unwrap();
    avm.set_property(obj, n_x, Value::Integer(1), 10).unwrap();
    avm.set_property(obj, n_y, Value::Str(sid), 10).unwrap();

    send(&avm, &channel, &Value::Object(obj), -1, worker_a).unwrap();
    let got = receive(&mut avm, &channel, false, worker_b, false, plain).unwrap();
    let got_obj = match got {
        Value::Object(o) => o,
        other => panic!("expected an object, got {:?}", other),
    };
    assert_ne!(got_obj, obj);
    assert_eq!(avm.get_property(got_obj, n_x, 10).unwrap(), Value::Integer(1));
    let y = avm.get_property(got_obj, n_y, 10).unwrap();
    match y {
        Value::Str(id) => assert_eq!(avm.strings.lookup(id).unwrap(), &b"a".to_vec()),
        other => panic!("expected a string, got {:?}", other),
    }
}

#[test]
fn third_worker_may_neither_send_nor_receive() {
    let mut avm = Avm::new();
    let plain = plain_class(&mut avm);
    let mut domain = WorkerDomain::new_primordial();
    let worker_a = 0;
    let worker_b = domain.create_worker();
    let worker_c = domain.create_worker();
    let channel = MessageChannelObject::new(worker_a, worker_b);

    assert_eq!(
        send(&avm, &channel, &Value::Integer(1), -1, worker_c),
        Err(ChannelError::NotSender { caller: worker_c, sender: worker_a })
    );
    assert_eq!(
        receive(&mut avm, &channel, false, worker_c, false, plain),
        Err(ChannelError::NotReceiver { caller: worker_c, receiver: worker_b })
    );
    // the receiver may not send, nor the sender receive
    assert_eq!(
        send(&avm, &channel, &Value::Integer(1), -1, worker_b),
        Err(ChannelError::NotSender { caller: worker_b, sender: worker_a })
    );
    assert_eq!(
        receive(&mut avm, &channel, false, worker_a, false, plain),
        Err(ChannelError::NotReceiver { caller: worker_a, receiver: worker_b })
    );
}

#[test]
fn nonblocking_receive_of_empty_channel_is_null_without_error() {
    let mut avm = Avm::new();
    let plain = plain_class(&mut avm);
    let channel = MessageChannelObject::new(0, 1);
    assert_eq!(receive(&mut avm, &channel, false, 1, false, plain), Ok(Value::Null));
}

#[test]
fn nonzero_queue_limit_fails_explicitly() {
    let avm = Avm::new();
    let channel = MessageChannelObject::new(0, 1);
    assert_eq!(send(&avm, &channel, &Value::Integer(1), 5, 0),
        Err(ChannelError::Unsupported));
    assert_eq!(send(&avm, &channel, &Value::Integer(1), 0, 0),
        Err(ChannelError::Unsupported));
}

#[test]
fn sending_a_resource_object_fails_explicitly() {
    let mut avm = Avm::new();
    let _ = plain_class(&mut avm);
    // an object standing for a worker cannot travel over a channel
    let worker_obj = avm.heap.allocate(avm2_core::heap::HeapObject {
        class: 0,
        slots: Vec::new(),
        dynamic: Vec::new(),
        elements: Vec::new(),
        kind: avm2_core::heap::ObjKind::Worker(1),
    });
    assert!(value_to_message(&avm, &Value::Object(worker_obj), 8).is_err());
    // and the whole send fails explicitly, even for the bound sender
    let channel = MessageChannelObject::new(0, 1);
    assert_eq!(send(&avm, &channel, &Value::Object(worker_obj), -1, 0),
        Err(ChannelError::Unsupported));
    // an array object does not travel either
    let arr = avm.heap.allocate(avm2_core::heap::HeapObject {
        class: 0,
        slots: Vec::new(),
        dynamic: Vec::new(),
        elements: vec![Value::Integer(1)],
        kind: avm2_core::heap::ObjKind::Array,
    });
    assert_eq!(send(&avm, &channel, &Value::Object(arr), -1, 0),
        Err(ChannelError::Unsupported));
}

#[test]
fn primordial_blocking_receive_times_out_at_fifteen_seconds() {
    assert_eq!(PRIMORDIAL_RECEIVE_TIMEOUT_MS, 15_000);
    let channel = MessageChannelObject::new(0, 1);
    let start = std::time::Instant::now();
    let r = channel.receive(true, 1, true);
    let elapsed = start.elapsed();
    assert_eq!(r, Err(ChannelError::ScriptTimeout));
    assert!(elapsed.as_millis() >= 14_900, "returned after {:?}", elapsed);
    assert!(elapsed.as_millis() < 19_000, "returned after {:?}", elapsed);
}

#[test]
fn channel_carries_bytes_in_order() {
    let channel = MessageChannelObject::new(3, 4);
    channel.send(MessageChannelMessage::AMF3(vec![1]), 3).unwrap();
    channel.send(MessageChannelMessage::AMF3(vec![2]), 3).unwrap();
    let m1 = channel.receive(false, 4, false).unwrap().unwrap();
    let m2 = channel.receive(false, 4, false).unwrap().unwrap();
    let MessageChannelMessage::AMF3(b1) = m1;
    let MessageChannelMessage::AMF3(b2) = m2;
    assert_eq!(b1, vec![1]);
    assert_eq!(b2, vec![2]);
}

#[test]
fn worker_lifecycle_created_running_stopped() {
    let mut domain = WorkerDomain::new_primordial();
    assert!(domain.is_primordial(0));
    let w = domain.create_worker();
    assert!(!domain.is_primordial(w));
    assert_eq!(domain.get(w).unwrap().state, WorkerState::Created);
    domain.start(w).unwrap();
    assert_eq!(domain.get(w).unwrap().state, WorkerState::Running);
    assert!(domain.start(w).is_err());
    domain.stop(w).unwrap();
    assert_eq!(domain.get(w).unwrap().state, WorkerState::Stopped);
    // the primordial worker can be neither started nor stopped
    assert!(domain.start(0).is_err());
    assert!(domain.stop(0).is_err());
}

#[test]
fn large_integers_travel_as_doubles() {
    let avm = Avm::new();
    let m = value_to_message(&avm, &Value::Integer(0x2000_0000), 8).unwrap();
    match m {
        AmfValue::Double(d) => assert_eq!(d, (536870912f64).to_bits()),
        other => panic!("expected a double, got {:?}", other),
    }
    let m2 = value_to_message(&avm, &Value::Unsigned(0xFFFF_FFFF), 8).unwrap();
    match m2 {
        AmfValue::Double(d) => assert_eq!(d, (4294967295f64).to_bits()),
        other => panic!("expected a double, got {:?}", other),
    }
}
