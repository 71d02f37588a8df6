//! Message channels between workers: a unidirectional, unbounded,
//! thread-safe queue bound to exactly one sender worker and one receiver
//! worker, carrying serialized messages. Only the bound sender may push
//! and only the bound receiver may pop; a violation is a permission
//! error, never an abort. A blocking receive on the primordial worker is
//! bounded by a timeout so the main thread can never hang forever.

use vstd::prelude::*;
use crate::worker::WorkerId;
use crate::value::Value;
use crate::property::{NameId, QName};
use crate::amf::{AmfView, deep_list};
use crate::heap::{HeapObject, ObjKind};

verus! {

/// The sending half of the host's unbounded channel.
#[verifier::external_type_specification]
#[verifier::external_body]
#[verifier::reject_recursive_types(T)]
pub struct ExSender<T>(crossbeam_channel::Sender<T>);

/// The receiving half of the host's unbounded channel.
#[verifier::external_type_specification]
#[verifier::external_body]
#[verifier::reject_recursive_types(T)]
pub struct ExReceiver<T>(crossbeam_channel::Receiver<T>);

/// One serialized message: the encoded bytes of a value.
#[derive(Debug, Clone, PartialEq, Eq)]
pub enum MessageChannelMessage {
    AMF3(Vec<u8>),
}

/// How long the primordial worker's blocking receive waits before it
/// gives up, in milliseconds: the main thread must never hang forever.
pub const PRIMORDIAL_RECEIVE_TIMEOUT_MS: u64 = 15_000;

/// How deeply nested an object may be to travel over a channel.
pub const SEND_NESTING_BUDGET: u64 = 64;

/// A channel error; each is catchable by the running script.
#[derive(Debug, Clone, Copy, PartialEq, Eq, Structural)]
pub enum ChannelError {
    /// The calling worker is not the channel's bound sender.
    NotSender { caller: WorkerId, sender: WorkerId },
    /// The calling worker is not the channel's bound receiver.
    NotReceiver { caller: WorkerId, receiver: WorkerId },
    /// The other end of the channel is gone.
    Closed,
    /// The primordial worker's blocking receive timed out.
    ScriptTimeout,
    /// The operation or the value kind is not supported over a channel;
    /// explicit, never a silent no-op.
    Unsupported,
}

/// Relies on crossbeam_channel::unbounded: a fresh channel of unbounded
/// capacity whose two halves this function returns.
#[verifier::external_body]
fn channel_unbounded() -> (crossbeam_channel::Sender<MessageChannelMessage>,
    crossbeam_channel::Receiver<MessageChannelMessage>) {
    crossbeam_channel::unbounded()
}

/// Relies on crossbeam_channel::Sender::send: on an unbounded channel it
/// enqueues the message and fails only when every receiver is gone. The
/// result reports which of the two happened; nothing more can be promised
/// of a queue other threads share.
#[verifier::external_body]
fn channel_send(s: &crossbeam_channel::Sender<MessageChannelMessage>,
    msg: MessageChannelMessage) -> (r: bool)
{
    s.send(msg).is_ok()
}

/// What a non-blocking pop observed.
pub enum TryRecvOutcome {
    Message(MessageChannelMessage),
    Empty,
    Disconnected,
}

/// What a bounded blocking pop observed.
pub enum TimedRecvOutcome {
    Message(MessageChannelMessage),
    Timeout,
    Disconnected,
}

/// Relies on crossbeam_channel::Receiver::try_recv: pops the next queued
/// message if one is ready, without blocking. Which outcome comes back
/// depends on what other threads have sent; nothing more is promised.
#[verifier::external_body]
fn channel_try_recv(r: &crossbeam_channel::Receiver<MessageChannelMessage>)
    -> TryRecvOutcome
{
    match r.try_recv() {
        Ok(msg) => TryRecvOutcome::Message(msg),
        Err(crossbeam_channel::TryRecvError::Empty) => TryRecvOutcome::Empty,
        Err(crossbeam_channel::TryRecvError::Disconnected) => TryRecvOutcome::Disconnected,
    }
}

/// Relies on crossbeam_channel::Receiver::recv: blocks until a message
/// arrives or every sender is gone.
#[verifier::external_body]
fn channel_recv(r: &crossbeam_channel::Receiver<MessageChannelMessage>)
    -> Option<MessageChannelMessage>
{
    r.recv().ok()
}

/// Relies on crossbeam_channel::Receiver::recv_timeout: blocks until a
/// message arrives, every sender is gone, or the given number of
/// milliseconds has passed.
#[verifier::external_body]
fn channel_recv_timeout(r: &crossbeam_channel::Receiver<MessageChannelMessage>, ms: u64)
    -> TimedRecvOutcome
{
    match r.recv_timeout(core::time::Duration::from_millis(ms)) {
        Ok(msg) => TimedRecvOutcome::Message(msg),
        Err(crossbeam_channel::RecvTimeoutError::Timeout) => TimedRecvOutcome::Timeout,
        Err(crossbeam_channel::RecvTimeoutError::Disconnected)
            => TimedRecvOutcome::Disconnected,
    }
}

/// A message channel: its two bound endpoint workers and the queue's two
/// halves.
pub struct MessageChannelObject {
    sender_worker: WorkerId,
    receiver_worker: WorkerId,
    sender: crossbeam_channel::Sender<MessageChannelMessage>,
    receiver: crossbeam_channel::Receiver<MessageChannelMessage>,
}

impl MessageChannelObject {
    pub closed spec fn spec_sender_worker(&self) -> WorkerId {
        self.sender_worker
    }

    pub closed spec fn spec_receiver_worker(&self) -> WorkerId {
        self.receiver_worker
    }

    /// A fresh channel bound to the given sender and receiver workers,
    /// with an empty unbounded queue.
    pub fn new(sender_worker: WorkerId, receiver_worker: WorkerId) -> (r: Self)
        ensures
            r.spec_sender_worker() == sender_worker,
            r.spec_receiver_worker() == receiver_worker,
    {
        let (sender, receiver) = channel_unbounded();
        MessageChannelObject { sender_worker, receiver_worker, sender, receiver }
    }

    /// Pushes a message. Only the bound sender worker may send: any other
    /// caller gets a permission error and the queue is untouched. For the
    /// bound sender the message is enqueued, or the channel reports
    /// itself closed.
    pub fn send(&self, message: MessageChannelMessage, current_worker: WorkerId)
        -> (r: Result<(), ChannelError>)
        ensures
            current_worker != self.spec_sender_worker()
                <==> r == Err::<(), ChannelError>(ChannelError::NotSender {
                    caller: current_worker, sender: self.spec_sender_worker() }),
            r is Ok ==> current_worker == self.spec_sender_worker(),
            current_worker == self.spec_sender_worker()
                ==> (r is Ok || r == Err::<(), ChannelError>(ChannelError::Closed)),
    {
        if current_worker != self.sender_worker {
            return Err(ChannelError::NotSender { caller: current_worker,
                sender: self.sender_worker });
        }
        if channel_send(&self.sender, message) {
            Ok(())
        } else {
            Err(ChannelError::Closed)
        }
    }

    /// Pops a message. Only the bound receiver worker may receive: any
    /// other caller gets a permission error. A non-blocking receive on an
    /// empty queue returns no message and no error. A blocking receive
    /// waits; on the primordial worker the wait is bounded by
    /// `PRIMORDIAL_RECEIVE_TIMEOUT_MS` and ends in a catchable timeout
    /// error, never an unbounded hang of the main thread.
    pub fn receive(&self, block: bool, current_worker: WorkerId, caller_is_primordial: bool)
        -> (r: Result<Option<MessageChannelMessage>, ChannelError>)
        ensures
            current_worker != self.spec_receiver_worker()
                <==> r == Err::<Option<MessageChannelMessage>, ChannelError>(
                    ChannelError::NotReceiver { caller: current_worker,
                        receiver: self.spec_receiver_worker() }),
            r is Ok ==> current_worker == self.spec_receiver_worker(),
            block ==> !(r matches Ok(m) && m is None),
            r == Err::<Option<MessageChannelMessage>, ChannelError>(
                ChannelError::ScriptTimeout) ==> block && caller_is_primordial,
            current_worker == self.spec_receiver_worker() ==> (r is Ok
                || r == Err::<Option<MessageChannelMessage>, ChannelError>(
                    ChannelError::Closed)
                || r == Err::<Option<MessageChannelMessage>, ChannelError>(
                    ChannelError::ScriptTimeout)),
    {
        if current_worker != self.receiver_worker {
            return Err(ChannelError::NotReceiver { caller: current_worker,
                receiver: self.receiver_worker });
        }
        if block {
            if caller_is_primordial {
                match channel_recv_timeout(&self.receiver, PRIMORDIAL_RECEIVE_TIMEOUT_MS) {
                    TimedRecvOutcome::Message(msg) => Ok(Some(msg)),
                    TimedRecvOutcome::Timeout => Err(ChannelError::ScriptTimeout),
                    TimedRecvOutcome::Disconnected => Err(ChannelError::Closed),
                }
            } else {
                match channel_recv(&self.receiver) {
                    Some(msg) => Ok(Some(msg)),
                    None => Err(ChannelError::Closed),
                }
            }
        } else {
            match channel_try_recv(&self.receiver) {
                TryRecvOutcome::Message(msg) => Ok(Some(msg)),
                TryRecvOutcome::Empty => Ok(None),
                TryRecvOutcome::Disconnected => Err(ChannelError::Closed),
            }
        }
    }
}

/// The message a script value converts to for the wire, if any:
/// primitives map directly (an integer outside the wire's 29-bit range
/// travels as a double, exactly), a valid short string travels by
/// content, and a plain object's dynamic bag becomes the message
/// object's members in enumeration order, each key the member name's
/// text. A worker, channel, bitmap, XML node, class or array object, a
/// stale handle, an over-long string or key, an empty key, or nesting
/// past the budget has no message.
pub open spec fn spec_value_message(tbl: Seq<Vec<u8>>, names: Seq<QName>,
    cells: Seq<Option<HeapObject>>, v: Value, fuel: nat) -> Option<AmfView>
    decreases fuel, 0int,
{
    if fuel == 0 {
        None
    } else {
        match v {
            Value::Undefined => Some(AmfView::Undefined),
            Value::Null => Some(AmfView::Null),
            Value::Boolean(b) => Some(AmfView::Boolean(b)),
            Value::Integer(n) => if -0x1000_0000 <= n <= 0x0FFF_FFFF {
                Some(AmfView::Integer(n))
            } else {
                Some(AmfView::Double(crate::number::spec_double_of_int(n as int)))
            },
            Value::Unsigned(u) => if u <= 0x0FFF_FFFF {
                Some(AmfView::Integer(u as i32))
            } else {
                Some(AmfView::Double(crate::number::spec_double_of_int(u as int)))
            },
            Value::Number(b) => Some(AmfView::Double(b)),
            Value::Str(s) => if s < tbl.len() && tbl[s as int]@.len() < 0x1000_0000 {
                Some(AmfView::Str(tbl[s as int]@))
            } else {
                None
            },
            Value::Object(id) => {
                if id < cells.len() && cells[id as int] is Some
                    && cells[id as int].unwrap().kind == ObjKind::Plain {
                    match spec_pairs_message(tbl, names, cells,
                        cells[id as int].unwrap().dynamic@, (fuel - 1) as nat) {
                        Some(ps) => Some(AmfView::Object(ps)),
                        None => None,
                    }
                } else {
                    None
                }
            },
        }
    }
}

/// The members a dynamic bag converts to, in order, if every one does.
pub open spec fn spec_pairs_message(tbl: Seq<Vec<u8>>, names: Seq<QName>,
    cells: Seq<Option<HeapObject>>, dynamic: Seq<(NameId, Value)>, fuel: nat)
    -> Option<Seq<(Seq<u8>, AmfView)>>
    decreases fuel, 1int, dynamic.len(),
{
    if dynamic.len() == 0 {
        Some(Seq::<(Seq<u8>, AmfView)>::empty())
    } else {
        let nid = dynamic[0].0;
        if nid < names.len() && 1 <= names[nid as int].name@.len() < 0x1000_0000 {
            match spec_value_message(tbl, names, cells, dynamic[0].1, fuel) {
                Some(mv) => match spec_pairs_message(tbl, names, cells,
                    dynamic.drop_first(), fuel) {
                    Some(rest) => Some(seq![(names[nid as int].name@, mv)] + rest),
                    None => None,
                },
                None => None,
            }
        } else {
            None
        }
    }
}

/// Converts a script value to its wire message: exactly the message
/// `spec_value_message` fixes for the value, and an explicit error — not
/// a silent substitute — exactly where there is none.
pub fn value_to_message(avm: &crate::runtime::Avm, v: &crate::value::Value, fuel: u64)
    -> (r: Result<crate::amf::AmfValue, crate::runtime::AvmError>)
    requires
        avm.wf(),
    ensures
        match r {
            Ok(m) => spec_value_message(avm.strings.spec_strings(),
                avm.registry.spec_names(), avm.heap.spec_cells(), *v, fuel as nat)
                == Some(m.deep())
                && crate::amf::spec_amf_wf(m.deep()),
            Err(_) => spec_value_message(avm.strings.spec_strings(),
                avm.registry.spec_names(), avm.heap.spec_cells(), *v, fuel as nat)
                is None,
        },
    decreases fuel,
{
    if fuel == 0 {
        return Err(crate::runtime::AvmError::Unsupported);
    }
    match v {
        crate::value::Value::Undefined => Ok(crate::amf::AmfValue::Undefined),
        crate::value::Value::Null => Ok(crate::amf::AmfValue::Null),
        crate::value::Value::Boolean(b) => Ok(crate::amf::AmfValue::Boolean(*b)),
        crate::value::Value::Integer(n) => {
            if -0x1000_0000 <= *n && *n <= 0x0FFF_FFFF {
                Ok(crate::amf::AmfValue::Integer(*n))
            } else {
                Ok(crate::amf::AmfValue::Double(crate::number::double_from_i32(*n)))
            }
        },
        crate::value::Value::Unsigned(u) => {
            if *u <= 0x0FFF_FFFF {
                Ok(crate::amf::AmfValue::Integer(*u as i32))
            } else {
                Ok(crate::amf::AmfValue::Double(crate::number::double_from_u32(*u)))
            }
        },
        crate::value::Value::Number(b) => Ok(crate::amf::AmfValue::Double(*b)),
        crate::value::Value::Str(s) => {
            match avm.strings.lookup(*s) {
                Some(bytes) => {
                    if bytes.len() < 0x1000_0000 {
                        Ok(crate::amf::AmfValue::Str(crate::class::copy_vec(bytes)))
                    } else {
                        Err(crate::runtime::AvmError::Unsupported)
                    }
                },
                None => Err(crate::runtime::AvmError::Unsupported),
            }
        },
        crate::value::Value::Object(id) => {
            let (dynamic, kind) = match avm.heap.get(*id) {
                Some(o) => (crate::class::copy_vec(&o.dynamic), o.kind),
                None => {
                    return Err(crate::runtime::AvmError::NoSuchObject { obj: *id });
                },
            };
            match kind {
                crate::heap::ObjKind::Plain => {},
                _ => {
                    return Err(crate::runtime::AvmError::Unsupported);
                },
            }
            let ghost tb = avm.strings.spec_strings();
            let ghost nm = avm.registry.spec_names();
            let ghost ce = avm.heap.spec_cells();
            let ghost whole = spec_value_message(tb, nm, ce, *v, fuel as nat);
            proof {
                assert(dynamic@.skip(0) =~= dynamic@);
                assert(whole == (match spec_pairs_message(tb, nm, ce, dynamic@,
                    (fuel - 1) as nat) {
                    Some(ps) => Some(AmfView::Object(ps)),
                    None => None::<AmfView>,
                }));
            }
            let n = dynamic.len();
            let mut pairs: Vec<(Vec<u8>, crate::amf::AmfValue)> = Vec::new();
            let mut i: usize = 0;
            while i < n
                invariant
                    i <= n,
                    n == dynamic@.len(),
                    avm.wf(),
                    fuel >= 1,
                    tb == avm.strings.spec_strings(),
                    nm == avm.registry.spec_names(),
                    ce == avm.heap.spec_cells(),
                    whole == spec_value_message(tb, nm, ce, *v, fuel as nat),
                    whole == (match spec_pairs_message(tb, nm, ce, dynamic@,
                        (fuel - 1) as nat) {
                        Some(ps) => Some(AmfView::Object(ps)),
                        None => None::<AmfView>,
                    }),
                    crate::amf::spec_amf_pairs_wf(crate::amf::deep_list(pairs@)),
                    spec_pairs_message(tb, nm, ce, dynamic@, (fuel - 1) as nat)
                        == (match spec_pairs_message(tb, nm, ce,
                            dynamic@.skip(i as int), (fuel - 1) as nat) {
                            Some(rest) => Some(deep_list(pairs@) + rest),
                            None => None::<Seq<(Seq<u8>, AmfView)>>,
                        }),
                decreases n - i,
            {
                proof {
                    let d = dynamic@.skip(i as int);
                    assert(d[0] == dynamic@[i as int]);
                    assert(d.drop_first() =~= dynamic@.skip(i as int + 1));
                }
                let (name_id, val) = dynamic[i];
                let key: Vec<u8> = match avm.registry.name_of(name_id) {
                    Some(q) => crate::class::copy_vec(&q.name),
                    None => {
                        return Err(crate::runtime::AvmError::Unsupported);
                    },
                };
                if key.len() == 0 || key.len() >= 0x1000_0000 {
                    return Err(crate::runtime::AvmError::Unsupported);
                }
                let m = match value_to_message(avm, &val, fuel - 1) {
                    Ok(m) => m,
                    Err(e) => {
                        return Err(e);
                    },
                };
                let ghost before = pairs@;
                pairs.push((key, m));
                proof {
                    lemma_deep_list_push_wf(before, pairs@, key@, m.deep());
                    assert(deep_list(pairs@) =~= deep_list(before)
                        + seq![(key@, m.deep())]) by {
                        assert(forall|k: int| 0 <= k < before.len()
                            ==> pairs@[k] == #[trigger] before[k]);
                        assert(pairs@[before.len() as int] == (key, m));
                    }
                }
                i = i + 1;
            }
            proof {
                assert(spec_pairs_message(tb, nm, ce, dynamic@.skip(n as int),
                    (fuel - 1) as nat) == Some(Seq::<(Seq<u8>, AmfView)>::empty()));
                assert(deep_list(pairs@) + Seq::<(Seq<u8>, AmfView)>::empty()
                    =~= deep_list(pairs@));
            }
            Ok(crate::amf::AmfValue::Object(pairs))
        },
    }
}

/// Appending one well-formed member to a well-formed list keeps it well
/// formed.
proof fn lemma_deep_list_push_wf(before: Seq<(Vec<u8>, crate::amf::AmfValue)>,
    after: Seq<(Vec<u8>, crate::amf::AmfValue)>, key: Seq<u8>, mv: crate::amf::AmfView)
    requires
        crate::amf::spec_amf_pairs_wf(crate::amf::deep_list(before)),
        after.len() == before.len() + 1,
        forall|k: int| 0 <= k < before.len() ==> after[k] == before[k],
        crate::amf::deep_list(after)[before.len() as int] == (key, mv),
        1 <= key.len() < 0x1000_0000,
        crate::amf::spec_amf_wf(mv),
    ensures
        crate::amf::spec_amf_pairs_wf(crate::amf::deep_list(after)),
    decreases before.len(),
{
    let db = crate::amf::deep_list(before);
    let da = crate::amf::deep_list(after);
    if before.len() == 0 {
        assert(da.len() == 1);
        assert(da[0] == (key, mv));
        assert(da.drop_first() =~= crate::amf::deep_list(Seq::<(Vec<u8>,
            crate::amf::AmfValue)>::empty()));
        assert(crate::amf::spec_amf_pairs_wf(da.drop_first()));
    } else {
        assert(da[0] == db[0]);
        assert(da.drop_first() =~= crate::amf::deep_list(after.drop_first())) by {
            assert(forall|k: int| 0 <= k < after.len() - 1
                ==> #[trigger] after.drop_first()[k] == after[k + 1]);
        }
        assert(db.drop_first() =~= crate::amf::deep_list(before.drop_first())) by {
            assert(forall|k: int| 0 <= k < before.len() - 1
                ==> #[trigger] before.drop_first()[k] == before[k + 1]);
        }
        assert(crate::amf::deep_list(after.drop_first())[(before.len() - 1) as int]
            == (key, mv));
        lemma_deep_list_push_wf(before.drop_first(), after.drop_first(), key, mv);
    }
}

/// Whether two member keys differ, position by position: no key of the
/// message object repeats.
pub open spec fn spec_msg_keys_distinct(ps: Seq<(Seq<u8>, AmfView)>) -> bool {
    forall|i: int, j: int| 0 <= i < j < ps.len()
        ==> (#[trigger] ps[i]).0 != (#[trigger] ps[j]).0
}

/// Whether a materialized member value carries the message member: the
/// primitives exactly, a string by interned content, and an object as an
/// object handle (whose own members the recursion materialized in turn).
pub open spec fn spec_member_carries(tbl: Seq<Vec<u8>>, v: Value, mv: AmfView) -> bool {
    match mv {
        AmfView::Undefined => v == Value::Undefined,
        AmfView::Null => v == Value::Null,
        AmfView::Boolean(b) => v == Value::Boolean(b),
        AmfView::Integer(n) => v == Value::Integer(n),
        AmfView::Double(d) => v == Value::Number(d),
        AmfView::Str(s) => v is Str && v->Str_0 < tbl.len()
            && tbl[v->Str_0 as int]@ == s,
        AmfView::Object(_) => v is Object,
    }
}

/// How many nesting levels materializing a message value needs: one for
/// the value itself, plus the deepest member of an object.
pub open spec fn spec_msg_depth(v: AmfView) -> nat
    decreases v,
{
    match v {
        AmfView::Object(ps) => 1 + spec_pairs_depth(ps),
        _ => 1,
    }
}

/// The deepest member of a message object's member list.
pub open spec fn spec_pairs_depth(ps: Seq<(Seq<u8>, AmfView)>) -> nat
    decreases ps,
{
    if ps.len() == 0 {
        0
    } else {
        let h = spec_msg_depth(ps[0].1);
        let t = spec_pairs_depth(ps.drop_first());
        if h > t {
            h
        } else {
            t
        }
    }
}

/// Every member's depth is bounded by the list's.
proof fn lemma_pairs_depth_bound(ps: Seq<(Seq<u8>, AmfView)>, k: int)
    requires
        0 <= k < ps.len(),
    ensures
        spec_msg_depth(ps[k].1) <= spec_pairs_depth(ps),
    decreases ps.len(),
{
    if k > 0 {
        lemma_pairs_depth_bound(ps.drop_first(), k - 1);
    }
}

/// Materializes a received message value in the worker's own heap: a
/// message object becomes a fresh plain instance of the given class —
/// whose table must be empty and unsealed, the shape of the plain object
/// class — carrying the message's members in its dynamic bag in message
/// order, strings interned by content. Cells alive beforehand are
/// untouched: no reference ever crosses the worker boundary, only this
/// reconstruction from bytes. Nothing but exhausted nesting fuel can
/// fail on these inputs: a budget of at least the message's depth is
/// owed a value.
pub fn message_to_value(avm: &mut crate::runtime::Avm, m: &crate::amf::AmfValue,
    plain_class: crate::property::ClassId, fuel: u64)
    -> (r: Result<crate::value::Value, crate::runtime::AvmError>)
    requires
        old(avm).wf(),
        plain_class < old(avm).registry.spec_classes().len(),
        !old(avm).registry.spec_classes()[plain_class as int].is_sealed,
        crate::class::spec_resolve(old(avm).registry.spec_classes(), plain_class as int,
            crate::class::ANY_NAME) == Ok::<crate::class::VtS, crate::class::ClassError>(
            crate::class::empty_vt()),
    ensures
        final(avm).wf(),
        final(avm).registry.spec_classes() == old(avm).registry.spec_classes(),
        final(avm).methods == old(avm).methods,
        old(avm).heap.spec_cells().len() <= final(avm).heap.spec_cells().len(),
        old(avm).strings.spec_strings().len() <= final(avm).strings.spec_strings().len(),
        forall|i: int| 0 <= i < old(avm).strings.spec_strings().len()
            ==> #[trigger] final(avm).strings.spec_strings()[i]
                == old(avm).strings.spec_strings()[i],
        old(avm).registry.spec_names().len() <= final(avm).registry.spec_names().len(),
        forall|i: int| 0 <= i < old(avm).registry.spec_names().len()
            ==> #[trigger] final(avm).registry.spec_names()[i]
                == old(avm).registry.spec_names()[i],
        forall|i: int| 0 <= i < old(avm).heap.spec_cells().len()
            && (#[trigger] old(avm).heap.spec_cells()[i]) is Some
            ==> final(avm).heap.spec_cells()[i] == old(avm).heap.spec_cells()[i],
        match (r, m) {
            (Ok(v), crate::amf::AmfValue::Undefined) => v == crate::value::Value::Undefined,
            (Ok(v), crate::amf::AmfValue::Null) => v == crate::value::Value::Null,
            (Ok(v), crate::amf::AmfValue::Boolean(b)) => v
                == crate::value::Value::Boolean(*b),
            (Ok(v), crate::amf::AmfValue::Integer(n)) => v
                == crate::value::Value::Integer(*n),
            (Ok(v), crate::amf::AmfValue::Double(d)) => v == crate::value::Value::Number(*d),
            (Ok(v), crate::amf::AmfValue::Str(s)) => v is Str
                && v->Str_0 < final(avm).strings.spec_strings().len()
                && final(avm).strings.spec_strings()[v->Str_0 as int]@ == s@,
            (Ok(v), crate::amf::AmfValue::Object(pairs)) => ({
                let ps = deep_list(pairs@);
                &&& v is Object
                &&& v->Object_0 < final(avm).heap.spec_cells().len()
                &&& (v->Object_0 >= old(avm).heap.spec_cells().len()
                    || old(avm).heap.spec_cells()[v->Object_0 as int] is None)
                &&& final(avm).heap.spec_cells()[v->Object_0 as int] is Some
                &&& ({
                    let o = final(avm).heap.spec_cells()[v->Object_0 as int].unwrap();
                    &&& o.kind == ObjKind::Plain
                    &&& o.class == plain_class
                    &&& (spec_msg_keys_distinct(ps) ==> ({
                        &&& o.dynamic@.len() == ps.len()
                        &&& forall|k: int| 0 <= k < ps.len() ==> ({
                            let e = #[trigger] o.dynamic@[k];
                            &&& e.0 < final(avm).registry.spec_names().len()
                            &&& final(avm).registry.spec_names()[e.0 as int].ns@.len() == 0
                            &&& final(avm).registry.spec_names()[e.0 as int].name@
                                == ps[k].0
                            &&& spec_member_carries(final(avm).strings.spec_strings(),
                                e.1, ps[k].1)
                        })
                    }))
                })
            }),
            (Err(_), _) => true,
        },
        fuel as nat >= spec_msg_depth(m.deep()) ==> r is Ok,
    decreases fuel,
{
    if fuel == 0 {
        return Err(crate::runtime::AvmError::Unsupported);
    }
    match m {
        crate::amf::AmfValue::Undefined => Ok(crate::value::Value::Undefined),
        crate::amf::AmfValue::Null => Ok(crate::value::Value::Null),
        crate::amf::AmfValue::Boolean(b) => Ok(crate::value::Value::Boolean(*b)),
        crate::amf::AmfValue::Integer(n) => Ok(crate::value::Value::Integer(*n)),
        crate::amf::AmfValue::Double(d) => Ok(crate::value::Value::Number(*d)),
        crate::amf::AmfValue::Str(s) => {
            let id = avm.strings.intern(crate::class::copy_vec(s));
            Ok(crate::value::Value::Str(id))
        },
        crate::amf::AmfValue::Object(pairs) => {
            let obj = match avm.construct_instance(plain_class) {
                Ok(obj) => obj,
                Err(e) => {
                    // the plain class resolves by assumption, so
                    // construction cannot fail
                    proof {
                        assert(false);
                    }
                    return Err(e);
                },
            };
            let ghost ps = deep_list(pairs@);
            let n = pairs.len();
            let mut i: usize = 0;
            while i < n
                invariant
                    i <= n,
                    n == pairs@.len(),
                    avm.wf(),
                    fuel >= 1,
                    *m == crate::amf::AmfValue::Object(*pairs),
                    ps == deep_list(pairs@),
                    ps.len() == pairs@.len(),
                    avm.registry.spec_classes() == old(avm).registry.spec_classes(),
                    avm.methods == old(avm).methods,
                    plain_class < avm.registry.spec_classes().len(),
                    !avm.registry.spec_classes()[plain_class as int].is_sealed,
                    crate::class::spec_resolve(avm.registry.spec_classes(),
                        plain_class as int, crate::class::ANY_NAME)
                        == Ok::<crate::class::VtS, crate::class::ClassError>(
                            crate::class::empty_vt()),
                    old(avm).registry.spec_names().len()
                        <= avm.registry.spec_names().len(),
                    forall|j: int| 0 <= j < old(avm).registry.spec_names().len()
                        ==> #[trigger] avm.registry.spec_names()[j]
                            == old(avm).registry.spec_names()[j],
                    old(avm).heap.spec_cells().len() <= avm.heap.spec_cells().len(),
                    old(avm).strings.spec_strings().len()
                        <= avm.strings.spec_strings().len(),
                    forall|j: int| 0 <= j < old(avm).strings.spec_strings().len()
                        ==> #[trigger] avm.strings.spec_strings()[j]
                            == old(avm).strings.spec_strings()[j],
                    forall|j: int| 0 <= j < old(avm).heap.spec_cells().len()
                        && (#[trigger] old(avm).heap.spec_cells()[j]) is Some
                        ==> avm.heap.spec_cells()[j] == old(avm).heap.spec_cells()[j],
                    obj < avm.heap.spec_cells().len(),
                    obj >= old(avm).heap.spec_cells().len()
                        || old(avm).heap.spec_cells()[obj as int] is None,
                    avm.heap.spec_cells()[obj as int] is Some,
                    ({
                        let o = avm.heap.spec_cells()[obj as int].unwrap();
                        &&& o.kind == ObjKind::Plain
                        &&& o.class == plain_class
                        &&& (spec_msg_keys_distinct(ps) ==> ({
                            &&& o.dynamic@.len() == i
                            &&& forall|k: int| 0 <= k < i ==> ({
                                let e = #[trigger] o.dynamic@[k];
                                &&& e.0 < avm.registry.spec_names().len()
                                &&& avm.registry.spec_names()[e.0 as int].ns@.len() == 0
                                &&& avm.registry.spec_names()[e.0 as int].name@
                                    == ps[k].0
                                &&& spec_member_carries(avm.strings.spec_strings(),
                                    e.1, ps[k].1)
                            })
                        }))
                    }),
                decreases n - i,
            {
                proof {
                    assert(*pairs == m->Object_0);
                    assert(decreases_to!(*m => m->Object_0));
                    assert(decreases_to!(*pairs => pairs@));
                    assert(decreases_to!(pairs@ => pairs@[i as int]));
                    assert(decreases_to!(pairs@[i as int] => pairs@[i as int].1));
                    assert(decreases_to!(*m => pairs@[i as int].1));
                }
                let ghost names_top = avm.registry.spec_names();
                let ghost cells_top = avm.heap.spec_cells();
                let val = match message_to_value(avm, &pairs[i].1, plain_class, fuel - 1) {
                    Ok(v) => v,
                    Err(e) => {
                        // the member refused its budget of fuel - 1, so the
                        // whole message's depth exceeds fuel
                        proof {
                            if fuel as nat >= spec_msg_depth(m.deep()) {
                                assert(m.deep() == AmfView::Object(ps));
                                assert(ps[i as int].1 == pairs@[i as int].1.deep());
                                lemma_pairs_depth_bound(ps, i as int);
                                assert(false);
                            }
                        }
                        return Err(e);
                    },
                };
                let key = crate::class::copy_vec(&pairs[i].0);
                let name_id = avm.registry.intern(crate::property::QName::new(Vec::new(),
                    key));
                proof {
                    assert(ps[i as int] == (pairs@[i as int].0@,
                        pairs@[i as int].1.deep()));
                    // the object's cell and the interned names of its entries
                    // are carried unchanged through the member's own
                    // materialization and the key's interning
                    assert(avm.heap.spec_cells()[obj as int]
                        == cells_top[obj as int]);
                    if spec_msg_keys_distinct(ps) {
                        let o = avm.heap.spec_cells()[obj as int].unwrap();
                        assert forall|k: int| 0 <= k < o.dynamic@.len() implies
                            (#[trigger] o.dynamic@[k]).0 != name_id by {
                            assert(o.dynamic@[k]
                                == cells_top[obj as int].unwrap().dynamic@[k]);
                            assert(avm.registry.spec_names()[o.dynamic@[k].0 as int]
                                == names_top[o.dynamic@[k].0 as int]);
                            assert(names_top[o.dynamic@[k].0 as int].name@ == ps[k].0);
                            assert(avm.registry.spec_names()[name_id as int].name@
                                == ps[i as int].0);
                            assert(ps[k].0 != ps[i as int].0);
                        }
                        crate::runtime::lemma_find_dyn_none(
                            avm.heap.spec_cells()[obj as int].unwrap().dynamic@, name_id);
                    }
                }
                let ghost before_set = *avm;
                match avm.set_property(obj, name_id, val, 16) {
                    Ok(()) => {},
                    Err(e) => {
                        // a dynamic write on a live cell of the unsealed,
                        // empty-table plain class cannot fail
                        proof {
                            assert(crate::class::spec_find_idx(
                                crate::class::empty_vt().0, name_id) == -1);
                            assert(false);
                        }
                        return Err(e);
                    },
                }
                proof {
                    if spec_msg_keys_distinct(ps) {
                        let ob = before_set.heap.spec_cells()[obj as int].unwrap();
                        let oa = avm.heap.spec_cells()[obj as int].unwrap();
                        assert(oa.dynamic@ == ob.dynamic@.push((name_id, val)));
                        assert forall|k: int| 0 <= k < i + 1 implies ({
                            let e = #[trigger] oa.dynamic@[k];
                            &&& e.0 < avm.registry.spec_names().len()
                            &&& avm.registry.spec_names()[e.0 as int].ns@.len() == 0
                            &&& avm.registry.spec_names()[e.0 as int].name@ == ps[k].0
                            &&& spec_member_carries(avm.strings.spec_strings(), e.1,
                                ps[k].1)
                        }) by {
                            if k < i {
                                assert(oa.dynamic@[k] == ob.dynamic@[k]);
                                assert(ob.dynamic@[k]
                                    == cells_top[obj as int].unwrap().dynamic@[k]);
                                let e0 = cells_top[obj as int].unwrap().dynamic@[k].0;
                                assert(avm.registry.spec_names()[e0 as int]
                                    == names_top[e0 as int]);
                                assert(spec_member_carries(avm.strings.spec_strings(),
                                    oa.dynamic@[k].1, ps[k].1)) by {
                                    match ps[k].1 {
                                        AmfView::Str(sv) => {
                                            assert(oa.dynamic@[k].1 is Str);
                                        },
                                        _ => {},
                                    }
                                }
                            } else {
                                assert(oa.dynamic@[k] == (name_id, val));
                            }
                        }
                    }
                }
                i = i + 1;
            }
            Ok(crate::value::Value::Object(obj))
        },
    }
}

/// Sends a script value over the channel. A queue limit other than
/// "unlimited" is not supported and fails explicitly, before anything
/// else; a value with no wire message (a worker, channel, bitmap, XML
/// node, class or array object among them) fails explicitly next; then
/// only the bound sender passes the permission check, and the wire form
/// of exactly the value's message — its encoding under the wire spec —
/// is enqueued, or the channel reports itself closed.
pub fn send(avm: &crate::runtime::Avm, channel: &MessageChannelObject,
    value: &crate::value::Value, queue_limit: i32, current_worker: WorkerId)
    -> (r: Result<(), ChannelError>)
    requires
        avm.wf(),
    ensures
        ({
            let msg = spec_value_message(avm.strings.spec_strings(),
                avm.registry.spec_names(), avm.heap.spec_cells(), *value,
                SEND_NESTING_BUDGET as nat);
            if queue_limit != -1 {
                r == Err::<(), ChannelError>(ChannelError::Unsupported)
            } else if msg is None {
                r == Err::<(), ChannelError>(ChannelError::Unsupported)
            } else if current_worker != channel.spec_sender_worker() {
                r == Err::<(), ChannelError>(ChannelError::NotSender {
                    caller: current_worker, sender: channel.spec_sender_worker() })
            } else {
                r is Ok || r == Err::<(), ChannelError>(ChannelError::Closed)
            }
        }),
        r is Ok ==> queue_limit == -1
            && current_worker == channel.spec_sender_worker()
            && spec_value_message(avm.strings.spec_strings(),
                avm.registry.spec_names(), avm.heap.spec_cells(), *value,
                SEND_NESTING_BUDGET as nat) is Some,
{
    if queue_limit != -1 {
        return Err(ChannelError::Unsupported);
    }
    let m = match value_to_message(avm, value, SEND_NESTING_BUDGET) {
        Ok(m) => m,
        Err(_) => {
            return Err(ChannelError::Unsupported);
        },
    };
    let mut bytes: Vec<u8> = Vec::new();
    crate::amf::encode(&m, &mut bytes);
    channel.send(MessageChannelMessage::AMF3(bytes), current_worker)
}

/// Receives a script value from the channel and materializes it in the
/// receiving worker's heap. A non-blocking receive of an empty queue
/// yields null without error, as the scripting interface requires.
/// Whatever arrived: cells alive beforehand are untouched, interned
/// strings and names only grow, and an object result is a freshly
/// materialized plain instance of the given class — never a reference
/// from across the worker boundary.
pub fn receive(avm: &mut crate::runtime::Avm, channel: &MessageChannelObject, block: bool,
    current_worker: WorkerId, caller_is_primordial: bool,
    plain_class: crate::property::ClassId)
    -> (r: Result<crate::value::Value, ChannelError>)
    requires
        old(avm).wf(),
        plain_class < old(avm).registry.spec_classes().len(),
        !old(avm).registry.spec_classes()[plain_class as int].is_sealed,
        crate::class::spec_resolve(old(avm).registry.spec_classes(), plain_class as int,
            crate::class::ANY_NAME) == Ok::<crate::class::VtS, crate::class::ClassError>(
            crate::class::empty_vt()),
    ensures
        final(avm).wf(),
        r is Ok ==> current_worker == channel.spec_receiver_worker(),
        current_worker != channel.spec_receiver_worker()
            ==> r == Err::<crate::value::Value, ChannelError>(ChannelError::NotReceiver {
                caller: current_worker, receiver: channel.spec_receiver_worker() }),
        !block ==> r != Err::<crate::value::Value, ChannelError>(
            ChannelError::ScriptTimeout),
        r == Err::<crate::value::Value, ChannelError>(ChannelError::ScriptTimeout)
            ==> block && caller_is_primordial,
        current_worker == channel.spec_receiver_worker() ==> (r is Ok
            || r == Err::<crate::value::Value, ChannelError>(ChannelError::Closed)
            || r == Err::<crate::value::Value, ChannelError>(ChannelError::ScriptTimeout)
            || r == Err::<crate::value::Value, ChannelError>(ChannelError::Unsupported)),
        final(avm).registry.spec_classes() == old(avm).registry.spec_classes(),
        final(avm).methods == old(avm).methods,
        old(avm).strings.spec_strings().len() <= final(avm).strings.spec_strings().len(),
        forall|i: int| 0 <= i < old(avm).strings.spec_strings().len()
            ==> #[trigger] final(avm).strings.spec_strings()[i]
                == old(avm).strings.spec_strings()[i],
        old(avm).registry.spec_names().len() <= final(avm).registry.spec_names().len(),
        forall|i: int| 0 <= i < old(avm).registry.spec_names().len()
            ==> #[trigger] final(avm).registry.spec_names()[i]
                == old(avm).registry.spec_names()[i],
        forall|i: int| 0 <= i < old(avm).heap.spec_cells().len()
            && (#[trigger] old(avm).heap.spec_cells()[i]) is Some
            ==> final(avm).heap.spec_cells()[i] == old(avm).heap.spec_cells()[i],
        r matches Ok(crate::value::Value::Object(o)) ==> ({
            &&& o < final(avm).heap.spec_cells().len()
            &&& (o >= old(avm).heap.spec_cells().len()
                || old(avm).heap.spec_cells()[o as int] is None)
            &&& final(avm).heap.spec_cells()[o as int] is Some
            &&& final(avm).heap.spec_cells()[o as int].unwrap().kind == ObjKind::Plain
            &&& final(avm).heap.spec_cells()[o as int].unwrap().class == plain_class
        }),
{
    let msg = match channel.receive(block, current_worker, caller_is_primordial) {
        Ok(Some(m)) => m,
        Ok(None) => {
            return Ok(crate::value::Value::Null);
        },
        Err(e) => {
            return Err(e);
        },
    };
    let MessageChannelMessage::AMF3(bytes) = msg;
    let blen = bytes.len();
    let fuel: u64 = if blen < 0xFFFF_FFFF {
        (blen + 1) as u64
    } else {
        0xFFFF_FFFF
    };
    match crate::amf::decode(&bytes, 0, fuel) {
        Some((m, _)) => {
            match message_to_value(avm, &m, plain_class, fuel) {
                Ok(v) => Ok(v),
                Err(_) => Err(ChannelError::Unsupported),
            }
        },
        None => Err(ChannelError::Unsupported),
    }
}

} // verus!
