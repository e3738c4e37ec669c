//! The diagnostics scheduler: a queue that holds at most one waiting job
//! per document, in front of a fixed number of workers.

use vstd::prelude::*;
use crate::bytes::bytes_equal;

verus! {

/// A job: the document to compile and the text to compile it from.
#[derive(Clone, Debug, PartialEq, Eq)]
pub struct WorkItem {
    pub key: Vec<u8>,
    pub value: Vec<u8>,
}

/// Where a document stands with the scheduler.
#[derive(Clone, Copy, Debug, PartialEq, Eq, Structural)]
pub enum KeyState {
    /// Nothing waits and nothing runs.
    Idle,
    /// A job waits.
    Queued,
    /// A job runs and none waits.
    Running,
    /// A job runs and a later one waits behind it.
    RunningAndQueued,
}

/// The scheduler as a value: the waiting jobs in the order in which their
/// documents joined the queue, the documents whose jobs run, and the
/// number of workers.
pub struct SchedulerState {
    pub pending: Seq<(Seq<u8>, Seq<u8>)>,
    pub running: Seq<Seq<u8>>,
    pub workers: nat,
}

impl SchedulerState {
    /// A job for `key` waits.
    pub open spec fn is_pending(self, key: Seq<u8>) -> bool {
        exists|i: int| 0 <= i < self.pending.len() && (#[trigger] self.pending[i]).0 == key
    }

    /// Index of the job that waits for `key`.
    pub open spec fn pending_index(self, key: Seq<u8>) -> int {
        choose|i: int| 0 <= i < self.pending.len() && (#[trigger] self.pending[i]).0 == key
    }

    /// A job for `key` runs.
    pub open spec fn is_running(self, key: Seq<u8>) -> bool {
        self.running.contains(key)
    }

    /// At most one job waits per document, at most one runs per document,
    /// and no more jobs run than there are workers.
    pub open spec fn wf(self) -> bool {
        &&& forall|i: int, j: int|
            0 <= i < j < self.pending.len() ==> (#[trigger] self.pending[i]).0 != (
            #[trigger] self.pending[j]).0
        &&& self.running.no_duplicates()
        &&& self.running.len() <= self.workers
    }

    pub open spec fn state_of(self, key: Seq<u8>) -> KeyState {
        if self.is_running(key) {
            if self.is_pending(key) {
                KeyState::RunningAndQueued
            } else {
                KeyState::Running
            }
        } else if self.is_pending(key) {
            KeyState::Queued
        } else {
            KeyState::Idle
        }
    }

    /// A new edit: it takes the place of the job that waits for the same
    /// document, or joins the end of the queue. A running job is not
    /// touched.
    pub open spec fn enqueue(self, key: Seq<u8>, value: Seq<u8>) -> SchedulerState {
        if self.is_pending(key) {
            SchedulerState {
                pending: self.pending.update(self.pending_index(key), (key, value)),
                ..self
            }
        } else {
            SchedulerState { pending: self.pending.push((key, value)), ..self }
        }
    }

    /// The job at `i` may start: its document has no running job, and every
    /// job before it waits for a document that has one.
    pub open spec fn is_next(self, i: int) -> bool {
        &&& 0 <= i < self.pending.len()
        &&& !self.is_running(self.pending[i].0)
        &&& forall|j: int| 0 <= j < i ==> self.is_running((#[trigger] self.pending[j]).0)
    }

    /// A worker is free and some waiting job may start.
    pub open spec fn can_dispatch(self) -> bool {
        self.running.len() < self.workers && exists|i: int| self.is_next(i)
    }

    /// Index of the job that starts next.
    pub open spec fn next_index(self) -> int {
        choose|i: int| self.is_next(i)
    }

    /// The state after the next job has started.
    pub open spec fn dispatch(self) -> SchedulerState {
        if self.can_dispatch() {
            SchedulerState {
                pending: self.pending.remove(self.next_index()),
                running: self.running.push(self.pending[self.next_index()].0),
                ..self
            }
        } else {
            self
        }
    }

    /// The job that starts next, if one can.
    pub open spec fn dispatched(self) -> Option<(Seq<u8>, Seq<u8>)> {
        if self.can_dispatch() {
            Some(self.pending[self.next_index()])
        } else {
            None
        }
    }

    /// The state after the running job of `key` has ended. What waits for
    /// the document stays in the queue.
    pub open spec fn complete(self, key: Seq<u8>) -> SchedulerState {
        if self.is_running(key) {
            SchedulerState { running: self.running.remove(self.running.index_of(key)), ..self }
        } else {
            self
        }
    }
}

/// Only one job at a time can be the next to start.
pub proof fn lemma_next_unique(state: SchedulerState, i: int, j: int)
    requires
        state.is_next(i),
        state.is_next(j),
    ensures
        i == j,
{
    if i < j {
        assert(state.is_running(state.pending[i].0));
    } else if j < i {
        assert(state.is_running(state.pending[j].0));
    }
}

/// Only one job waits for a document.
pub proof fn lemma_pending_unique(state: SchedulerState, key: Seq<u8>, i: int)
    requires
        state.wf(),
        0 <= i < state.pending.len(),
        state.pending[i].0 == key,
    ensures
        state.is_pending(key),
        state.pending_index(key) == i,
{
    let chosen = state.pending_index(key);
    if chosen < i {
        assert(state.pending[chosen].0 != state.pending[i].0);
    } else if i < chosen {
        assert(state.pending[i].0 != state.pending[chosen].0);
    }
}

/// Two edits of one document with no job started in between leave one
/// waiting job for it, which carries the second text: the state is the
/// one the second edit alone would have left, the first text is nowhere
/// in it, and when the job starts it starts with the second text.
pub proof fn law_latest_edit_wins(state: SchedulerState, key: Seq<u8>, first: Seq<u8>, second: Seq<u8>)
    requires
        state.wf(),
    ensures
        state.enqueue(key, first).enqueue(key, second) == state.enqueue(key, second),
        state.enqueue(key, second).wf(),
        state.enqueue(key, second).is_pending(key),
        forall|i: int|
            0 <= i < state.enqueue(key, second).pending.len() && (
            #[trigger] state.enqueue(key, second).pending[i]).0 == key ==> i == state.enqueue(
                key,
                second,
            ).pending_index(key) && state.enqueue(key, second).pending[i].1 == second,
        state.enqueue(key, second).running == state.running,
        state.enqueue(key, second).dispatched() matches Some(job) ==> (job.0 == key ==> job.1
            == second),
        state.enqueue(key, second).dispatched() matches Some(job) ==> (job.0 == key
            ==> !state.enqueue(key, second).dispatch().is_pending(key)),
{
    let once = state.enqueue(key, first);
    let twice = once.enqueue(key, second);
    let direct = state.enqueue(key, second);
    lemma_enqueue(state, key, first);
    lemma_enqueue(state, key, second);
    lemma_enqueue(once, key, second);
    let at = once.pending_index(key);
    if state.is_pending(key) {
        let before = state.pending_index(key);
        assert(once.pending[before].0 == key);
        lemma_pending_unique(once, key, before);
        assert(twice.pending =~= direct.pending);
    } else {
        let last = state.pending.len() as int;
        assert(once.pending[last].0 == key);
        lemma_pending_unique(once, key, last);
        assert(twice.pending =~= direct.pending);
    }
    assert forall|i: int|
        0 <= i < direct.pending.len() && (#[trigger] direct.pending[i]).0 == key implies i
        == direct.pending_index(key) && direct.pending[i].1 == second by {
        lemma_pending_unique(direct, key, i);
    }
    if direct.can_dispatch() {
        let next = direct.next_index();
        if direct.pending[next].0 == key {
            lemma_pending_unique(direct, key, next);
            let after = direct.dispatch();
            if after.is_pending(key) {
                let k = after.pending_index(key);
                let source = if k < next { k } else { k + 1 };
                assert(after.pending[k] == direct.pending[source]);
                lemma_pending_unique(direct, key, source);
            }
        }
    }
}

/// An edit keeps the scheduler well formed and leaves exactly one waiting
/// job for its document, with its text.
pub proof fn lemma_enqueue(state: SchedulerState, key: Seq<u8>, value: Seq<u8>)
    requires
        state.wf(),
    ensures
        state.enqueue(key, value).wf(),
        state.enqueue(key, value).is_pending(key),
        state.enqueue(key, value).pending[state.enqueue(key, value).pending_index(key)] == (
            key,
            value,
        ),
{
    let after = state.enqueue(key, value);
    if state.is_pending(key) {
        let at = state.pending_index(key);
        assert forall|i: int, j: int| 0 <= i < j < after.pending.len() implies (
        #[trigger] after.pending[i]).0 != (#[trigger] after.pending[j]).0 by {
            assert(after.pending[i].0 == state.pending[i].0);
            assert(after.pending[j].0 == state.pending[j].0);
        }
        assert(after.pending[at].0 == key);
        lemma_pending_unique(after, key, at);
    } else {
        let last = state.pending.len() as int;
        assert forall|i: int, j: int| 0 <= i < j < after.pending.len() implies (
        #[trigger] after.pending[i]).0 != (#[trigger] after.pending[j]).0 by {
            assert(after.pending[i] == state.pending[i]);
            if j < last {
                assert(after.pending[j] == state.pending[j]);
            }
        }
        assert(after.pending[last].0 == key);
        lemma_pending_unique(after, key, last);
    }
}

/// The waiting jobs as values.
pub open spec fn jobs(pending: Seq<WorkItem>) -> Seq<(Seq<u8>, Seq<u8>)> {
    pending.map_values(|item: WorkItem| (item.key@, item.value@))
}

/// Document names as values.
pub open spec fn names(keys: Seq<Vec<u8>>) -> Seq<Seq<u8>> {
    keys.map_values(|key: Vec<u8>| key@)
}

/// The scheduler.
pub struct Scheduler {
    pending: Vec<WorkItem>,
    running: Vec<Vec<u8>>,
    workers: usize,
}

impl View for Scheduler {
    type V = SchedulerState;

    closed spec fn view(&self) -> SchedulerState {
        SchedulerState {
            pending: jobs(self.pending@),
            running: names(self.running@),
            workers: self.workers as nat,
        }
    }
}

impl Scheduler {
    pub open spec fn wf(&self) -> bool {
        self@.wf()
    }

    /// A scheduler with nothing waiting and nothing running.
    pub fn new(workers: usize) -> (scheduler: Scheduler)
        ensures
            scheduler.wf(),
            scheduler@.pending == Seq::<(Seq<u8>, Seq<u8>)>::empty(),
            scheduler@.running == Seq::<Seq<u8>>::empty(),
            scheduler@.workers == workers,
    {
        let scheduler = Scheduler { pending: Vec::new(), running: Vec::new(), workers };
        assert(scheduler@.pending =~= Seq::<(Seq<u8>, Seq<u8>)>::empty());
        assert(scheduler@.running =~= Seq::<Seq<u8>>::empty());
        scheduler
    }

    /// Number of waiting jobs.
    pub fn pending_count(&self) -> (count: usize)
        ensures
            count == self@.pending.len(),
    {
        self.pending.len()
    }

    /// Number of running jobs.
    pub fn running_count(&self) -> (count: usize)
        ensures
            count == self@.running.len(),
    {
        self.running.len()
    }

    fn find_pending(&self, key: &[u8]) -> (found: Option<usize>)
        requires
            self.wf(),
        ensures
            match found {
                Some(i) => self@.is_pending(key@) && self@.pending_index(key@) == i && i
                    < self.pending@.len(),
                None => !self@.is_pending(key@),
            },
    {
        let mut i: usize = 0;
        while i < self.pending.len()
            invariant
                i <= self.pending.len(),
                self.wf(),
                forall|j: int| 0 <= j < i ==> (#[trigger] self@.pending[j]).0 != key@,
            decreases self.pending.len() - i,
        {
            if bytes_equal(self.pending[i].key.as_slice(), key) {
                proof {
                    assert(self@.pending[i as int].0 == key@);
                    lemma_pending_unique(self@, key@, i as int);
                }
                return Some(i);
            }
            assert(self@.pending[i as int].0 == self.pending@[i as int].key@);
            i += 1;
        }
        None
    }

    fn find_running(&self, key: &[u8]) -> (found: Option<usize>)
        requires
            self.wf(),
        ensures
            match found {
                Some(i) => self@.is_running(key@) && self@.running.index_of(key@) == i && i
                    < self.running@.len(),
                None => !self@.is_running(key@),
            },
    {
        let mut i: usize = 0;
        while i < self.running.len()
            invariant
                i <= self.running.len(),
                self.wf(),
                forall|j: int| 0 <= j < i ==> self@.running[j] != key@,
            decreases self.running.len() - i,
        {
            if bytes_equal(self.running[i].as_slice(), key) {
                proof {
                    assert(self@.running[i as int] == key@);
                    let at = self@.running.index_of(key@);
                    assert(self@.running[at] == key@);
                    assert(at == i);
                }
                return Some(i);
            }
            assert(self@.running[i as int] == self.running@[i as int]@);
            i += 1;
        }
        None
    }

    /// Where the document stands.
    pub fn state_of(&self, key: &[u8]) -> (state: KeyState)
        requires
            self.wf(),
        ensures
            state == self@.state_of(key@),
    {
        let waits = self.find_pending(key).is_some();
        let runs = self.find_running(key).is_some();
        if runs {
            if waits {
                KeyState::RunningAndQueued
            } else {
                KeyState::Running
            }
        } else if waits {
            KeyState::Queued
        } else {
            KeyState::Idle
        }
    }

    /// Takes in an edit of the document `key`.
    pub fn enqueue(&mut self, key: Vec<u8>, value: Vec<u8>)
        requires
            old(self).wf(),
        ensures
            final(self).wf(),
            final(self)@ == old(self)@.enqueue(key@, value@),
    {
        proof {
            lemma_enqueue(self@, key@, value@);
        }
        match self.find_pending(key.as_slice()) {
            Some(i) => {
                self.pending[i].value = value;
                assert(self@.pending =~= old(self)@.pending.update(i as int, (key@, value@)));
            },
            None => {
                self.pending.push(WorkItem { key, value });
                assert(self@.pending =~= old(self)@.pending.push((key@, value@)));
            },
        }
    }

    /// Starts the next job if a worker is free: the first waiting job whose
    /// document has no running job leaves the queue and its document counts
    /// as running.
    pub fn dispatch(&mut self) -> (job: Option<WorkItem>)
        requires
            old(self).wf(),
        ensures
            final(self).wf(),
            final(self)@ == old(self)@.dispatch(),
            match job {
                Some(item) => old(self)@.dispatched() == Some((item.key@, item.value@)),
                None => old(self)@.dispatched() is None,
            },
    {
        if self.running.len() >= self.workers {
            return None;
        }
        let mut i: usize = 0;
        while i < self.pending.len()
            invariant
                i <= self.pending.len(),
                self.wf(),
                *self == *old(self),
                self.running.len() < self.workers,
                forall|j: int| 0 <= j < i ==> self@.is_running((#[trigger] self@.pending[j]).0),
            decreases self.pending.len() - i,
        {
            if self.find_running(self.pending[i].key.as_slice()).is_none() {
                proof {
                    assert(self@.pending[i as int].0 == self.pending@[i as int].key@);
                    assert(self@.is_next(i as int));
                    lemma_next_unique(self@, i as int, self@.next_index());
                    lemma_dispatch(self@);
                }
                let item = self.pending.remove(i);
                self.running.push(copy_key(&item.key));
                assert(self@.pending =~= old(self)@.pending.remove(i as int));
                assert(self@.running =~= old(self)@.running.push(item.key@));
                return Some(item);
            }
            assert(self@.pending[i as int].0 == self.pending@[i as int].key@);
            i += 1;
        }
        proof {
            if exists|k: int| self@.is_next(k) {
                let k = choose|k: int| self@.is_next(k);
                assert(self@.is_running(self@.pending[k].0));
            }
        }
        None
    }

    /// Records that the running job of `key` has ended.
    pub fn complete(&mut self, key: &[u8])
        requires
            old(self).wf(),
        ensures
            final(self).wf(),
            final(self)@ == old(self)@.complete(key@),
    {
        match self.find_running(key) {
            Some(i) => {
                self.running.remove(i);
                assert(self@.running =~= old(self)@.running.remove(i as int));
                proof {
                    lemma_complete(old(self)@, key@);
                }
            },
            None => {},
        }
    }
}

fn copy_key(key: &Vec<u8>) -> (copy: Vec<u8>)
    ensures
        copy@ == key@,
{
    crate::bytes::copy_bytes(key.as_slice())
}

/// Starting a job keeps the scheduler well formed.
pub proof fn lemma_dispatch(state: SchedulerState)
    requires
        state.wf(),
    ensures
        state.dispatch().wf(),
{
    if state.can_dispatch() {
        let next = state.next_index();
        let after = state.dispatch();
        assert forall|i: int, j: int| 0 <= i < j < after.pending.len() implies (
        #[trigger] after.pending[i]).0 != (#[trigger] after.pending[j]).0 by {
            let from_i = if i < next { i } else { i + 1 };
            let from_j = if j < next { j } else { j + 1 };
            assert(after.pending[i] == state.pending[from_i]);
            assert(after.pending[j] == state.pending[from_j]);
        }
        let key = state.pending[next].0;
        assert forall|i: int, j: int|
            0 <= i < after.running.len() && 0 <= j < after.running.len() && i != j implies after.running[i]
            != after.running[j] by {
            if i < state.running.len() && j < state.running.len() {
            } else if i < state.running.len() {
                assert(state.running[i] != key);
            } else {
                assert(state.running[j] != key);
            }
        }
    }
}

/// Ending a job keeps the scheduler well formed, and the document no
/// longer counts as running.
pub proof fn lemma_complete(state: SchedulerState, key: Seq<u8>)
    requires
        state.wf(),
    ensures
        state.complete(key).wf(),
        !state.complete(key).is_running(key),
        state.complete(key).pending == state.pending,
{
    if state.is_running(key) {
        let at = state.running.index_of(key);
        let after = state.complete(key);
        assert forall|i: int, j: int|
            0 <= i < after.running.len() && 0 <= j < after.running.len() && i != j implies after.running[i]
            != after.running[j] by {
            let from_i = if i < at { i } else { i + 1 };
            let from_j = if j < at { j } else { j + 1 };
            assert(after.running[i] == state.running[from_i]);
            assert(after.running[j] == state.running[from_j]);
        }
        if after.is_running(key) {
            let k = choose|k: int| 0 <= k < after.running.len() && after.running[k] == key;
            let from = if k < at { k } else { k + 1 };
            assert(after.running[k] == state.running[from]);
        }
    }
}

} // verus!
