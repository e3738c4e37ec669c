//! The state of one session and what each notification does to it.

use vstd::prelude::*;
use crate::bytes::copy_bytes;
use crate::document::{spec_apply_changes, DocumentStore, TextChange};
use crate::error::ServerError;
use crate::lifecycle::{
    accepts_work, next_state, spec_accepts_work, spec_next_state, LifecycleEvent, LifecycleState,
};
use crate::modules::{CompiledModule, ModuleCache};
use crate::scheduler::{Scheduler, SchedulerState, WorkItem};

verus! {

/// What became of a change notification.
#[derive(Clone, Debug, PartialEq, Eq)]
pub enum ChangeOutcome {
    /// The text was changed and a compile of it waits in the queue.
    Queued,
    /// A change could not be applied. Nothing was queued; the error goes
    /// to the log.
    Rejected(ServerError),
}

/// One session: where it stands in its life, the open documents, the
/// compiled modules and the diagnostics scheduler. The documents change
/// with every edit; the modules follow when compiles end.
pub struct Session {
    state: LifecycleState,
    documents: DocumentStore,
    modules: ModuleCache,
    scheduler: Scheduler,
}

impl Session {
    pub closed spec fn wf(&self) -> bool {
        self.documents.wf() && self.modules.wf() && self.scheduler.wf()
    }

    pub closed spec fn state(&self) -> LifecycleState {
        self.state
    }

    /// The live text of the open documents.
    pub closed spec fn documents(&self) -> Map<Seq<u8>, Seq<u8>> {
        self.documents@
    }

    /// The compiled modules.
    pub closed spec fn modules(&self) -> Map<Seq<u8>, CompiledModule> {
        self.modules@
    }

    /// The scheduler.
    pub closed spec fn scheduler(&self) -> SchedulerState {
        self.scheduler@
    }

    /// A session before `initialize`, with nothing open, nothing compiled
    /// and nothing to do.
    pub fn new(workers: usize) -> (session: Session)
        ensures
            session.wf(),
            session.state() == LifecycleState::Uninitialized,
            session.documents() == Map::<Seq<u8>, Seq<u8>>::empty(),
            session.modules() == Map::<Seq<u8>, CompiledModule>::empty(),
            session.scheduler().pending == Seq::<(Seq<u8>, Seq<u8>)>::empty(),
            session.scheduler().running == Seq::<Seq<u8>>::empty(),
            session.scheduler().workers == workers,
    {
        Session {
            state: LifecycleState::Uninitialized,
            documents: DocumentStore::new(),
            modules: ModuleCache::new(),
            scheduler: Scheduler::new(workers),
        }
    }

    /// The compiled modules, for the request handlers to read.
    pub fn module_cache(&self) -> (cache: &ModuleCache)
        requires
            self.wf(),
        ensures
            cache.wf(),
            cache@ == self.modules(),
    {
        &self.modules
    }

    /// Takes in `initialize`, `shutdown` or `exit`. Documents, modules and
    /// jobs are left as they are: `exit` ends the session though jobs may
    /// still wait or run.
    pub fn on_lifecycle(&mut self, event: LifecycleEvent)
        requires
            old(self).wf(),
        ensures
            final(self).wf(),
            final(self).state() == spec_next_state(old(self).state(), event),
            final(self).documents() == old(self).documents(),
            final(self).modules() == old(self).modules(),
            final(self).scheduler() == old(self).scheduler(),
    {
        self.state = next_state(self.state, event);
    }

    /// Whether the session has ended.
    pub fn has_exited(&self) -> (exited: bool)
        ensures
            exited == (self.state() == LifecycleState::Exited),
    {
        match self.state {
            LifecycleState::Exited => true,
            _ => false,
        }
    }

    /// Whether work is still taken.
    pub fn accepts_work(&self) -> (accepts: bool)
        ensures
            accepts == spec_accepts_work(self.state()),
    {
        accepts_work(self.state)
    }

    /// A document was opened: its text is kept. The caller compiles it at
    /// once, before any change to it is taken in.
    pub fn did_open(&mut self, uri: Vec<u8>, text: Vec<u8>)
        requires
            old(self).wf(),
        ensures
            final(self).wf(),
            final(self).documents() == old(self).documents().insert(uri@, text@),
            final(self).state() == old(self).state(),
            final(self).modules() == old(self).modules(),
            final(self).scheduler() == old(self).scheduler(),
    {
        self.documents.open(uri, text);
    }

    /// A document was changed: the changes are applied in order to its live
    /// text, and a compile of the text as it then stands joins the queue,
    /// in place of one that still waits for the same document. If a change
    /// cannot be applied, the changes before it stay and nothing is
    /// queued.
    pub fn did_change(&mut self, uri: &[u8], changes: &Vec<TextChange>) -> (outcome: ChangeOutcome)
        requires
            old(self).wf(),
        ensures
            final(self).wf(),
            final(self).state() == old(self).state(),
            final(self).modules() == old(self).modules(),
            !old(self).documents().dom().contains(uri@) ==> {
                &&& final(self).documents() == old(self).documents()
                &&& final(self).scheduler() == old(self).scheduler()
                &&& outcome matches ChangeOutcome::Rejected(
                    ServerError::DocumentNotOpen { uri: named },
                )
                &&& named@ == uri@
            },
            old(self).documents().dom().contains(uri@) ==> {
                let applied = spec_apply_changes(old(self).documents()[uri@], changes@);
                let before = old(self).scheduler();
                let after = final(self).scheduler();
                &&& final(self).documents() == old(self).documents().insert(uri@, applied.0)
                &&& match applied.1 {
                    None => outcome is Queued && after == before.enqueue(uri@, applied.0),
                    Some(error) => outcome == ChangeOutcome::Rejected(error) && after == before,
                }
            },
    {
        match self.documents.apply_changes(uri, changes) {
            Ok(text) => {
                self.scheduler.enqueue(copy_bytes(uri), text);
                ChangeOutcome::Queued
            },
            Err(error) => ChangeOutcome::Rejected(error),
        }
    }

    /// Hands the next job to a free worker.
    pub fn next_job(&mut self) -> (job: Option<WorkItem>)
        requires
            old(self).wf(),
        ensures
            final(self).wf(),
            final(self).scheduler() == old(self).scheduler().dispatch(),
            match job {
                Some(item) => old(self).scheduler().dispatched() == Some((item.key@, item.value@)),
                None => old(self).scheduler().dispatched() is None,
            },
            final(self).state() == old(self).state(),
            final(self).documents() == old(self).documents(),
            final(self).modules() == old(self).modules(),
    {
        self.scheduler.dispatch()
    }

    /// The job of the document `uri` has ended. What it compiled, if the
    /// compile went through, takes the place of the module cached under
    /// `name`; a failed compile leaves the cache as it is.
    pub fn job_finished(&mut self, uri: &[u8], compiled: Option<(Vec<u8>, CompiledModule)>)
        requires
            old(self).wf(),
            compiled matches Some(named) ==> named.1.wf(),
        ensures
            final(self).wf(),
            final(self).scheduler() == old(self).scheduler().complete(uri@),
            final(self).modules() == match compiled {
                Some(named) => old(self).modules().insert(named.0@, named.1),
                None => old(self).modules(),
            },
            final(self).state() == old(self).state(),
            final(self).documents() == old(self).documents(),
    {
        self.scheduler.complete(uri);
        match compiled {
            Some(named) => {
                self.modules.insert(named.0, named.1);
            },
            None => {},
        }
    }

    /// Stores what a compile outside the queue produced, such as the one
    /// that follows the opening of a document.
    pub fn store_module(&mut self, name: Vec<u8>, module: CompiledModule)
        requires
            old(self).wf(),
            module.wf(),
        ensures
            final(self).wf(),
            final(self).modules() == old(self).modules().insert(name@, module),
            final(self).state() == old(self).state(),
            final(self).documents() == old(self).documents(),
            final(self).scheduler() == old(self).scheduler(),
    {
        self.modules.insert(name, module);
    }
}

} // verus!
