//! The frame context's action queue: scripted actions queued during a
//! frame and drained at its end, in three priority buckets — initialize
//! actions first, construction actions next, everything else last —
//! first-in first-out within a bucket.

use vstd::prelude::*;
use crate::value::{Value, ObjId};

verus! {

/// The type of a queued action, with what the action needs to run.
#[derive(Debug, Clone)]
pub enum ActionType {
    /// Normal frame or event actions: a slice of bytecode.
    Normal { bytecode: Vec<u8> },
    /// An initialize-clip event: a slice of bytecode.
    Initialize { bytecode: Vec<u8> },
    /// Construction of a movie with a custom class or construction
    /// events.
    Construct { constructor: Option<ObjId>, events: Vec<Vec<u8>> },
    /// An event handler method on an object.
    Method { object: ObjId, name: Vec<u8>, args: Vec<Value> },
    /// A system listener notification.
    NotifyListeners { listener: Vec<u8>, method: Vec<u8>, args: Vec<Value> },
}

impl ActionType {
    /// The bucket an action drains from: initialize events first,
    /// construction next, everything else last.
    pub open spec fn spec_priority(&self) -> int {
        match self {
            ActionType::Initialize { .. } => 2,
            ActionType::Construct { .. } => 1,
            _ => 0,
        }
    }

    pub fn priority(&self) -> (r: usize)
        ensures
            r == self.spec_priority(),
    {
        match self {
            ActionType::Initialize { .. } => 2,
            ActionType::Construct { .. } => 1,
            _ => 0,
        }
    }
}

/// A queued scripted call: the clip it runs on, the action, and whether
/// it may still run after the clip is removed.
#[derive(Debug, Clone)]
pub struct QueuedAction {
    pub clip: ObjId,
    pub action_type: ActionType,
    pub is_unload: bool,
}

/// The queue of actions to run after the display list updates, one
/// bucket per priority.
pub struct ActionQueue {
    low: Vec<QueuedAction>,
    mid: Vec<QueuedAction>,
    high: Vec<QueuedAction>,
}

impl ActionQueue {
    pub closed spec fn spec_bucket(&self, p: int) -> Seq<QueuedAction> {
        if p == 2 {
            self.high@
        } else if p == 1 {
            self.mid@
        } else {
            self.low@
        }
    }

    /// A fresh, empty queue.
    pub fn new() -> (r: Self)
        ensures
            r.spec_bucket(0).len() == 0,
            r.spec_bucket(1).len() == 0,
            r.spec_bucket(2).len() == 0,
    {
        ActionQueue { low: Vec::new(), mid: Vec::new(), high: Vec::new() }
    }

    /// Queues an action for the given clip at the action's priority,
    /// behind the actions already in its bucket.
    pub fn queue_action(&mut self, clip: ObjId, action_type: ActionType, is_unload: bool)
        ensures
            ({
                let p = action_type.spec_priority();
                &&& final(self).spec_bucket(p) == old(self).spec_bucket(p).push(
                    QueuedAction { clip, action_type, is_unload })
                &&& forall|q: int| 0 <= q <= 2 && q != p
                    ==> final(self).spec_bucket(q) == old(self).spec_bucket(q)
            }),
    {
        let p = action_type.priority();
        let action = QueuedAction { clip, action_type, is_unload };
        if p == 2 {
            self.high.push(action);
        } else if p == 1 {
            self.mid.push(action);
        } else {
            self.low.push(action);
        }
    }

    /// Drains one action: the first of the highest-priority nonempty
    /// bucket, or nothing when all three are empty.
    pub fn pop_action(&mut self) -> (r: Option<QueuedAction>)
        ensures
            match r {
                Some(_) => {
                    let p = if old(self).spec_bucket(2).len() > 0 {
                        2int
                    } else if old(self).spec_bucket(1).len() > 0 {
                        1int
                    } else {
                        0int
                    };
                    &&& old(self).spec_bucket(p).len() > 0
                    &&& r == Some(old(self).spec_bucket(p)[0])
                    &&& final(self).spec_bucket(p) == old(self).spec_bucket(p).drop_first()
                    &&& forall|q: int| 0 <= q <= 2 && q != p
                        ==> final(self).spec_bucket(q) == old(self).spec_bucket(q)
                },
                None => {
                    &&& old(self).spec_bucket(0).len() == 0
                    &&& old(self).spec_bucket(1).len() == 0
                    &&& old(self).spec_bucket(2).len() == 0
                    &&& *final(self) == *old(self)
                },
            },
    {
        if self.high.len() > 0 {
            let a = self.high.remove(0);
            proof {
                assert(self.high@ =~= old(self).high@.drop_first());
            }
            Some(a)
        } else if self.mid.len() > 0 {
            let a = self.mid.remove(0);
            proof {
                assert(self.mid@ =~= old(self).mid@.drop_first());
            }
            Some(a)
        } else if self.low.len() > 0 {
            let a = self.low.remove(0);
            proof {
                assert(self.low@ =~= old(self).low@.drop_first());
            }
            Some(a)
        } else {
            None
        }
    }
}

} // verus!
