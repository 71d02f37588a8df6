//! Workers: isolated execution units, each owning its own heap and (for
//! non-primordial workers) a dedicated native thread driven by the host.
//! The primordial worker lives for the process's lifetime; a spawned
//! worker is created, started once, runs until its running flag is
//! cleared, and stops cooperatively. The host owns the threads; this
//! module owns the lifecycle decisions.

use vstd::prelude::*;

verus! {

/// A handle to a worker: an index into the worker domain's registry.
pub type WorkerId = usize;

/// Whether a worker is the primordial (main) one or a spawned one.
#[derive(Debug, Clone, Copy, PartialEq, Eq, Structural)]
pub enum WorkerKind {
    Primordial,
    NonPrimordial,
}

/// The lifecycle of a worker.
#[derive(Debug, Clone, Copy, PartialEq, Eq, Structural)]
pub enum WorkerState {
    Created,
    Running,
    Stopped,
}

/// One worker's registry entry.
#[derive(Debug, Clone, Copy, PartialEq, Eq, Structural)]
pub struct WorkerHandle {
    pub kind: WorkerKind,
    pub state: WorkerState,
}

/// A worker lifecycle error; each is catchable by the running script.
#[derive(Debug, Clone, Copy, PartialEq, Eq, Structural)]
pub enum WorkerError {
    /// The worker id is not registered.
    NoSuchWorker { worker: WorkerId },
    /// The primordial worker cannot be started: it is always running.
    CannotStartPrimordial,
    /// The worker was already started.
    AlreadyStarted { worker: WorkerId },
}

/// The registry of sibling workers and their liveness, shared (behind the
/// host's lock) among all workers of the process.
pub struct WorkerDomain {
    workers: Vec<WorkerHandle>,
}

impl WorkerDomain {
    pub closed spec fn spec_workers(&self) -> Seq<WorkerHandle> {
        self.workers@
    }

    /// The domain invariant: worker 0 is the primordial worker, running
    /// for the process's lifetime; every other worker is non-primordial.
    pub closed spec fn wf(&self) -> bool {
        &&& self.workers@.len() >= 1
        &&& self.workers@[0].kind == WorkerKind::Primordial
        &&& self.workers@[0].state == WorkerState::Running
        &&& forall|i: int| 1 <= i < self.workers@.len()
            ==> (#[trigger] self.workers@[i]).kind == WorkerKind::NonPrimordial
    }

    /// A fresh domain holding only the primordial worker, already running.
    pub fn new_primordial() -> (r: Self)
        ensures
            r.wf(),
            r.spec_workers().len() == 1,
    {
        let mut workers: Vec<WorkerHandle> = Vec::new();
        workers.push(WorkerHandle { kind: WorkerKind::Primordial,
            state: WorkerState::Running });
        WorkerDomain { workers }
    }

    pub fn worker_count(&self) -> (r: usize)
        ensures
            r == self.spec_workers().len(),
    {
        self.workers.len()
    }

    /// Registers a fresh non-primordial worker, not yet started. The
    /// host's movie bytes stay with the host; the registry tracks only
    /// the lifecycle.
    pub fn create_worker(&mut self) -> (r: WorkerId)
        requires
            old(self).wf(),
        ensures
            final(self).wf(),
            r == old(self).spec_workers().len(),
            final(self).spec_workers() == old(self).spec_workers().push(
                WorkerHandle { kind: WorkerKind::NonPrimordial, state: WorkerState::Created }),
    {
        let id = self.workers.len();
        self.workers.push(WorkerHandle { kind: WorkerKind::NonPrimordial,
            state: WorkerState::Created });
        id
    }

    pub fn get(&self, id: WorkerId) -> (r: Option<WorkerHandle>)
        ensures
            match r {
                Some(h) => id < self.spec_workers().len()
                    && h == self.spec_workers()[id as int],
                None => id >= self.spec_workers().len(),
            },
    {
        if id < self.workers.len() {
            Some(self.workers[id])
        } else {
            None
        }
    }

    /// Whether the worker is the primordial one.
    pub fn is_primordial(&self, id: WorkerId) -> (r: bool)
        ensures
            r == (id < self.spec_workers().len()
                && self.spec_workers()[id as int].kind == WorkerKind::Primordial),
    {
        match self.get(id) {
            Some(h) => matches!(h.kind, WorkerKind::Primordial),
            None => false,
        }
    }

    /// Starts a created worker: the host spawns its thread on success.
    /// Starting the primordial worker or a worker twice is an error, not
    /// an abort.
    pub fn start(&mut self, id: WorkerId) -> (r: Result<(), WorkerError>)
        requires
            old(self).wf(),
        ensures
            final(self).wf(),
            match r {
                Ok(()) => {
                    &&& id < old(self).spec_workers().len()
                    &&& old(self).spec_workers()[id as int].kind
                        == WorkerKind::NonPrimordial
                    &&& old(self).spec_workers()[id as int].state == WorkerState::Created
                    &&& final(self).spec_workers() == old(self).spec_workers().update(
                        id as int, WorkerHandle { kind: WorkerKind::NonPrimordial,
                            state: WorkerState::Running })
                },
                Err(e) => final(self).spec_workers() == old(self).spec_workers()
                    && match e {
                        WorkerError::NoSuchWorker { worker } => worker == id
                            && id >= old(self).spec_workers().len(),
                        WorkerError::CannotStartPrimordial =>
                            id < old(self).spec_workers().len()
                            && old(self).spec_workers()[id as int].kind
                                == WorkerKind::Primordial,
                        WorkerError::AlreadyStarted { worker } => worker == id
                            && id < old(self).spec_workers().len()
                            && old(self).spec_workers()[id as int].kind
                                == WorkerKind::NonPrimordial
                            && old(self).spec_workers()[id as int].state
                                != WorkerState::Created,
                    },
            },
    {
        if id >= self.workers.len() {
            return Err(WorkerError::NoSuchWorker { worker: id });
        }
        let h = self.workers[id];
        match h.kind {
            WorkerKind::Primordial => Err(WorkerError::CannotStartPrimordial),
            WorkerKind::NonPrimordial => {
                match h.state {
                    WorkerState::Created => {
                        self.workers.set(id, WorkerHandle {
                            kind: WorkerKind::NonPrimordial,
                            state: WorkerState::Running });
                        Ok(())
                    },
                    _ => Err(WorkerError::AlreadyStarted { worker: id }),
                }
            },
        }
    }

    /// Clears a running worker's running flag; its thread observes the
    /// flag between frames and winds down cooperatively. Stopping a
    /// worker that is not running changes nothing.
    pub fn stop(&mut self, id: WorkerId) -> (r: Result<(), WorkerError>)
        requires
            old(self).wf(),
        ensures
            final(self).wf(),
            match r {
                Ok(()) => {
                    &&& id < old(self).spec_workers().len()
                    &&& old(self).spec_workers()[id as int].kind
                        == WorkerKind::NonPrimordial
                    &&& final(self).spec_workers() == (
                        if old(self).spec_workers()[id as int].state == WorkerState::Running {
                            old(self).spec_workers().update(id as int, WorkerHandle {
                                kind: WorkerKind::NonPrimordial,
                                state: WorkerState::Stopped })
                        } else {
                            old(self).spec_workers()
                        })
                },
                Err(e) => final(self).spec_workers() == old(self).spec_workers()
                    && match e {
                        WorkerError::NoSuchWorker { worker } => worker == id
                            && id >= old(self).spec_workers().len(),
                        WorkerError::CannotStartPrimordial =>
                            id < old(self).spec_workers().len()
                            && old(self).spec_workers()[id as int].kind
                                == WorkerKind::Primordial,
                        _ => false,
                    },
            },
    {
        if id >= self.workers.len() {
            return Err(WorkerError::NoSuchWorker { worker: id });
        }
        let h = self.workers[id];
        match h.kind {
            WorkerKind::Primordial => Err(WorkerError::CannotStartPrimordial),
            WorkerKind::NonPrimordial => {
                match h.state {
                    WorkerState::Running => {
                        self.workers.set(id, WorkerHandle {
                            kind: WorkerKind::NonPrimordial,
                            state: WorkerState::Stopped });
                        Ok(())
                    },
                    _ => Ok(()),
                }
            },
        }
    }
}

} // verus!
