//! Keyed counting semaphores with FIFO wait queues.
//!
//! A semaphore is a non-negative counter plus a queue of blocked process
//! identifiers. The set invariant — the counter is positive only when no
//! process waits — is established by every constructor and preserved by
//! every operation. `wait` and `signal` do not themselves reschedule:
//! they return a directive that tells the caller which process to block
//! or wake.

use vstd::prelude::*;

use crate::pid::ProcessId;
use std::collections::VecDeque;

verus! {

/// Directive returned by a semaphore operation: what the scheduler glue
/// must do next.
#[derive(Clone, Copy, Debug, PartialEq, Eq, Structural)]
pub enum SemaphoreResult {
    /// The operation completed; the caller keeps running.
    Done,
    /// No semaphore with the given key exists.
    NotExist,
    /// The caller must block the named process and switch away.
    Block(ProcessId),
    /// The caller must make the named process ready again.
    WakeUp(ProcessId),
}

/// A counting semaphore: a counter and a FIFO queue of waiting processes.
#[derive(Clone, Debug)]
pub struct Semaphore {
    /// Number of available units.
    pub count: usize,
    /// Processes blocked on this semaphore, oldest first.
    pub wait_queue: VecDeque<ProcessId>,
}

impl Semaphore {
    /// The processes blocked on this semaphore, oldest first.
    pub open spec fn queue(self) -> Seq<ProcessId> {
        self.wait_queue@
    }

    /// The semaphore invariant: units are available only while nobody
    /// waits.
    pub open spec fn wf(self) -> bool {
        self.count > 0 ==> self.queue().len() == 0
    }

    /// A fresh semaphore holding `value` units and no waiters.
    pub fn new(value: usize) -> (r: Semaphore)
        ensures
            r.wf(),
            r.count == value,
            r.queue() =~= Seq::<ProcessId>::empty(),
    {
        Semaphore { count: value, wait_queue: VecDeque::new() }
    }
}

/// One key-to-semaphore binding inside a [`SemaphoreSet`].
#[derive(Clone, Debug)]
pub struct SemEntry {
    /// The user-chosen 32-bit key.
    pub key: u32,
    /// The semaphore bound to the key.
    pub sem: Semaphore,
}

/// A set of semaphores keyed by 32-bit values chosen by user code.
#[derive(Clone, Debug)]
pub struct SemaphoreSet {
    /// The bindings; keys are pairwise distinct.
    pub entries: Vec<SemEntry>,
}

impl SemaphoreSet {
    /// All keys are distinct and every semaphore satisfies its invariant.
    pub open spec fn wf(self) -> bool {
        &&& forall|i: int, j: int|
            0 <= i < j < self.entries@.len() ==> self.entries@[i].key != self.entries@[j].key
        &&& forall|i: int| 0 <= i < self.entries@.len() ==> self.entries@[i].sem.wf()
    }

    /// Whether a semaphore with `key` exists.
    pub open spec fn has_key(self, key: u32) -> bool {
        exists|i: int| 0 <= i < self.entries@.len() && self.entries@[i].key == key
    }

    /// The index of the binding for `key` (meaningful when `has_key`).
    pub open spec fn idx_of(self, key: u32) -> int {
        choose|i: int| 0 <= i < self.entries@.len() && self.entries@[i].key == key
    }

    /// The semaphore bound to `key` (meaningful when `has_key`).
    pub open spec fn sem(self, key: u32) -> Semaphore {
        self.entries@[self.idx_of(key)].sem
    }

    /// Bindings other than `key` are untouched, and no binding for any
    /// other key appeared or vanished.
    pub open spec fn same_except(self, other: SemaphoreSet, key: u32) -> bool {
        &&& forall|k: u32|
            k != key ==> #[trigger] other.has_key(k) == self.has_key(k)
        &&& forall|k: u32|
            k != key && self.has_key(k) ==> {
                &&& (#[trigger] other.sem(k)).count == self.sem(k).count
                &&& other.sem(k).queue() == self.sem(k).queue()
            }
    }

    /// An empty set.
    pub fn new() -> (r: SemaphoreSet)
        ensures
            r.wf(),
            forall|k: u32| !r.has_key(k),
    {
        SemaphoreSet { entries: Vec::new() }
    }

    /// In a well-formed set, a binding found at index `i` is the binding
    /// of its key.
    proof fn lemma_idx(self, key: u32, i: int)
        requires
            self.wf(),
            0 <= i < self.entries@.len(),
            self.entries@[i].key == key,
        ensures
            self.has_key(key),
            self.idx_of(key) == i,
    {
        assert(self.has_key(key));
        let j = self.idx_of(key);
        if i < j {
            assert(self.entries@[i].key != self.entries@[j].key);
        } else if j < i {
            assert(self.entries@[j].key != self.entries@[i].key);
        }
    }

    /// Finds the index of the binding for `key`, if any.
    fn find(&self, key: u32) -> (r: Option<usize>)
        ensures
            match r {
                Some(i) => i < self.entries@.len() && self.entries@[i as int].key == key,
                None => !self.has_key(key),
            },
    {
        let n = self.entries.len();
        for i in 0..n
            invariant
                n == self.entries@.len(),
                forall|j: int| 0 <= j < i ==> self.entries@[j].key != key,
        {
            if self.entries[i].key == key {
                return Some(i);
            }
        }
        None
    }

    /// Creates a semaphore under `key` holding `value` units. Refused if
    /// the key is already bound.
    pub fn insert(&mut self, key: u32, value: usize) -> (r: bool)
        requires
            old(self).wf(),
        ensures
            final(self).wf(),
            r == !old(self).has_key(key),
            !r ==> *final(self) == *old(self),
            r ==> {
                &&& final(self).has_key(key)
                &&& final(self).sem(key).count == value
                &&& final(self).sem(key).queue() =~= Seq::<ProcessId>::empty()
                &&& old(self).same_except(*final(self), key)
            },
    {
        let found = self.find(key);
        match found {
            Some(_) => false,
            None => {
                let ghost old_set = *self;
                self.entries.push(SemEntry { key, sem: Semaphore::new(value) });
                proof {
                    let n = old_set.entries@.len() as int;
                    assert(self.entries@ =~= old_set.entries@.push(
                        SemEntry { key, sem: Semaphore { count: value, wait_queue: self.entries@[n].sem.wait_queue } },
                    ));
                    self.lemma_idx(key, n);
                    assert forall|k: u32| k != key implies #[trigger] self.has_key(k)
                        == old_set.has_key(k) by {
                        if self.has_key(k) {
                            let i = choose|i: int|
                                0 <= i < self.entries@.len() && self.entries@[i].key == k;
                            assert(i < n);
                            assert(old_set.entries@[i].key == k);
                        }
                        if old_set.has_key(k) {
                            let i = choose|i: int|
                                0 <= i < old_set.entries@.len() && old_set.entries@[i].key == k;
                            assert(self.entries@[i].key == k);
                        }
                    }
                    assert forall|k: u32| k != key && old_set.has_key(k) implies {
                        &&& (#[trigger] self.sem(k)).count == old_set.sem(k).count
                        &&& self.sem(k).queue() == old_set.sem(k).queue()
                    } by {
                        let i = old_set.idx_of(k);
                        old_set.lemma_idx(k, i);
                        self.lemma_idx(k, i);
                    }
                }
                true
            },
        }
    }

    /// Replacing the binding at `i` by another binding for the same key
    /// keeps the set well formed and leaves every other key untouched.
    proof fn lemma_update(self, other: SemaphoreSet, key: u32, i: int, e: SemEntry)
        requires
            self.wf(),
            0 <= i < self.entries@.len(),
            self.entries@[i].key == key,
            e.key == key,
            e.sem.wf(),
            other.entries@ == self.entries@.update(i, e),
        ensures
            other.wf(),
            other.has_key(key),
            other.idx_of(key) == i,
            other.sem(key) == e.sem,
            self.has_key(key),
            self.idx_of(key) == i,
            self.same_except(other, key),
    {
        self.lemma_idx(key, i);
        other.lemma_idx(key, i);
        assert forall|k: u32| k != key implies #[trigger] other.has_key(k) == self.has_key(
            k,
        ) by {
            if other.has_key(k) {
                let j = choose|j: int|
                    0 <= j < other.entries@.len() && other.entries@[j].key == k;
                assert(self.entries@[j].key == k);
            }
            if self.has_key(k) {
                let j = choose|j: int|
                    0 <= j < self.entries@.len() && self.entries@[j].key == k;
                assert(other.entries@[j].key == k);
            }
        }
        assert forall|k: u32| k != key && self.has_key(k) implies {
            &&& (#[trigger] other.sem(k)).count == self.sem(k).count
            &&& other.sem(k).queue() == self.sem(k).queue()
        } by {
            let j = self.idx_of(k);
            self.lemma_idx(k, j);
            other.lemma_idx(k, j);
        }
    }

    /// Deleting the binding at `i` keeps the set well formed and leaves
    /// every other key untouched.
    proof fn lemma_delete(self, other: SemaphoreSet, key: u32, i: int)
        requires
            self.wf(),
            0 <= i < self.entries@.len(),
            self.entries@[i].key == key,
            other.entries@ == self.entries@.remove(i),
        ensures
            other.wf(),
            !other.has_key(key),
            self.same_except(other, key),
    {
        self.lemma_idx(key, i);
        assert forall|j: int| 0 <= j < other.entries@.len() implies other.entries@[j].key
            != key by {
            if j < i {
                assert(other.entries@[j] == self.entries@[j]);
            } else {
                assert(other.entries@[j] == self.entries@[j + 1]);
            }
        }
        assert forall|k: u32| k != key implies #[trigger] other.has_key(k) == self.has_key(
            k,
        ) by {
            if other.has_key(k) {
                let j = choose|j: int|
                    0 <= j < other.entries@.len() && other.entries@[j].key == k;
                if j < i {
                    assert(self.entries@[j].key == k);
                } else {
                    assert(self.entries@[j + 1].key == k);
                }
            }
            if self.has_key(k) {
                let j = choose|j: int|
                    0 <= j < self.entries@.len() && self.entries@[j].key == k;
                if j < i {
                    assert(other.entries@[j].key == k);
                } else {
                    assert(other.entries@[j - 1].key == k);
                }
            }
        }
        assert forall|k: u32| k != key && self.has_key(k) implies {
            &&& (#[trigger] other.sem(k)).count == self.sem(k).count
            &&& other.sem(k).queue() == self.sem(k).queue()
        } by {
            let j = self.idx_of(k);
            self.lemma_idx(k, j);
            if j < i {
                other.lemma_idx(k, j);
            } else {
                other.lemma_idx(k, j - 1);
            }
        }
    }

    /// Deletes the semaphore under `key`. Refused if the key is unbound
    /// or if processes still wait on it, so that no blocked process is
    /// silently dropped.
    pub fn remove(&mut self, key: u32) -> (r: bool)
        requires
            old(self).wf(),
        ensures
            final(self).wf(),
            r == (old(self).has_key(key) && old(self).sem(key).queue().len() == 0),
            !r ==> *final(self) == *old(self),
            r ==> !final(self).has_key(key) && old(self).same_except(*final(self), key),
    {
        let found = self.find(key);
        match found {
            None => false,
            Some(i) => {
                proof {
                    self.lemma_idx(key, i as int);
                }
                if self.entries[i].sem.wait_queue.len() == 0 {
                    let ghost old_set = *self;
                    self.entries.remove(i);
                    proof {
                        old_set.lemma_delete(*self, key, i as int);
                    }
                    true
                } else {
                    false
                }
            },
        }
    }

    /// One unit is taken if available; otherwise `pid` joins the tail of
    /// the wait queue and must be blocked by the caller.
    pub fn wait(&mut self, key: u32, pid: ProcessId) -> (r: SemaphoreResult)
        requires
            old(self).wf(),
        ensures
            final(self).wf(),
            !old(self).has_key(key) ==> r == SemaphoreResult::NotExist && *final(self) == *old(
                self,
            ),
            old(self).has_key(key) ==> {
                &&& final(self).has_key(key)
                &&& old(self).same_except(*final(self), key)
                &&& if old(self).sem(key).count > 0 {
                    &&& r == SemaphoreResult::Done
                    &&& final(self).sem(key).count == old(self).sem(key).count - 1
                    &&& final(self).sem(key).queue() == old(self).sem(key).queue()
                } else {
                    &&& r == SemaphoreResult::Block(pid)
                    &&& final(self).sem(key).count == 0
                    &&& final(self).sem(key).queue() == old(self).sem(key).queue().push(pid)
                }
            },
    {
        let found = self.find(key);
        match found {
            None => SemaphoreResult::NotExist,
            Some(i) => {
                let ghost old_set = *self;
                let mut entry = self.entries.remove(i);
                let result = if entry.sem.count > 0 {
                    entry.sem.count = entry.sem.count - 1;
                    SemaphoreResult::Done
                } else {
                    entry.sem.wait_queue.push_back(pid);
                    SemaphoreResult::Block(pid)
                };
                let ghost new_entry = entry;
                self.entries.insert(i, entry);
                proof {
                    assert(self.entries@ =~= old_set.entries@.update(i as int, new_entry));
                    old_set.lemma_update(*self, key, i as int, new_entry);
                }
                result
            },
        }
    }

    /// The oldest waiter is woken if any; otherwise one unit is returned
    /// to the counter. (A counter already at the machine maximum is left
    /// unchanged.)
    pub fn signal(&mut self, key: u32) -> (r: SemaphoreResult)
        requires
            old(self).wf(),
        ensures
            final(self).wf(),
            !old(self).has_key(key) ==> r == SemaphoreResult::NotExist && *final(self) == *old(
                self,
            ),
            old(self).has_key(key) ==> {
                &&& final(self).has_key(key)
                &&& old(self).same_except(*final(self), key)
                &&& if old(self).sem(key).queue().len() > 0 {
                    &&& r == SemaphoreResult::WakeUp(old(self).sem(key).queue()[0])
                    &&& final(self).sem(key).queue() == old(self).sem(key).queue().drop_first()
                    &&& final(self).sem(key).count == old(self).sem(key).count
                } else {
                    &&& r == SemaphoreResult::Done
                    &&& final(self).sem(key).queue() == old(self).sem(key).queue()
                    &&& final(self).sem(key).count == if old(self).sem(key).count
                        < usize::MAX {
                        old(self).sem(key).count + 1
                    } else {
                        old(self).sem(key).count as int
                    }
                }
            },
    {
        let found = self.find(key);
        match found {
            None => SemaphoreResult::NotExist,
            Some(i) => {
                let ghost old_set = *self;
                let mut entry = self.entries.remove(i);
                let result = match entry.sem.wait_queue.pop_front() {
                    Some(head) => SemaphoreResult::WakeUp(head),
                    None => {
                        if entry.sem.count < usize::MAX {
                            entry.sem.count = entry.sem.count + 1;
                        }
                        SemaphoreResult::Done
                    },
                };
                let ghost new_entry = entry;
                self.entries.insert(i, entry);
                proof {
                    assert(self.entries@ =~= old_set.entries@.update(i as int, new_entry));
                    old_set.lemma_update(*self, key, i as int, new_entry);
                }
                result
            },
        }
    }

    /// Drops `pid` from every wait queue, as when the process is killed
    /// while blocked. The relative order of the remaining waiters is
    /// kept.
    pub fn purge_pid(&mut self, pid: ProcessId)
        requires
            old(self).wf(),
        ensures
            final(self).wf(),
            forall|k: u32| #[trigger] final(self).has_key(k) == old(self).has_key(k),
            forall|k: u32|
                old(self).has_key(k) ==> {
                    &&& (#[trigger] final(self).sem(k)).count == old(self).sem(k).count
                    &&& final(self).sem(k).queue() == old(self).sem(k).queue().filter(
                        not_pid(pid),
                    )
                    &&& !final(self).sem(k).queue().contains(pid)
                },
    {
        let n = self.entries.len();
        let mut i: usize = 0;
        while i < n
            invariant
                n == self.entries@.len(),
                n == old(self).entries@.len(),
                i <= n,
                old(self).wf(),
                self.wf(),
                forall|j: int|
                    0 <= j < n ==> self.entries@[j].key == old(self).entries@[j].key,
                forall|j: int|
                    0 <= j < i ==> {
                        &&& (#[trigger] self.entries@[j].sem).count == old(
                            self,
                        ).entries@[j].sem.count
                        &&& self.entries@[j].sem.queue() == old(
                            self,
                        ).entries@[j].sem.queue().filter(not_pid(pid))
                        &&& !self.entries@[j].sem.queue().contains(pid)
                    },
                forall|j: int|
                    i <= j < n ==> {
                        &&& (#[trigger] self.entries@[j].sem).count == old(
                            self,
                        ).entries@[j].sem.count
                        &&& self.entries@[j].sem.queue() == old(self).entries@[j].sem.queue()
                    },
            decreases n - i,
        {
            let ghost old_set = *self;
            let mut entry = self.entries.remove(i);
            entry.sem.wait_queue = remove_pid(entry.sem.wait_queue, pid);
            let ghost new_entry = entry;
            self.entries.insert(i, entry);
            proof {
                assert(self.entries@ =~= old_set.entries@.update(i as int, new_entry));
            }
            i = i + 1;
        }
        proof {
            assert forall|k: u32| #[trigger] final(self).has_key(k) == old(self).has_key(
                k,
            ) by {
                if self.has_key(k) {
                    let j = choose|j: int|
                        0 <= j < self.entries@.len() && self.entries@[j].key == k;
                    assert(old(self).entries@[j].key == k);
                }
                if old(self).has_key(k) {
                    let j = choose|j: int|
                        0 <= j < old(self).entries@.len() && old(self).entries@[j].key == k;
                    assert(self.entries@[j].key == k);
                }
            }
            assert forall|k: u32| old(self).has_key(k) implies {
                &&& (#[trigger] final(self).sem(k)).count == old(self).sem(k).count
                &&& final(self).sem(k).queue() == old(self).sem(k).queue().filter(
                    not_pid(pid),
                )
                &&& !final(self).sem(k).queue().contains(pid)
            } by {
                let j = old(self).idx_of(k);
                old(self).lemma_idx(k, j);
                self.lemma_idx(k, j);
            }
        }
    }
}

/// The predicate satisfied by the waiters that survive a purge of `pid`.
pub open spec fn not_pid(pid: ProcessId) -> spec_fn(ProcessId) -> bool {
    |x: ProcessId| x.0 != pid.0
}

/// A copy of `queue` with every occurrence of `pid` removed; the relative
/// order of the remaining entries is kept.
fn remove_pid(queue: VecDeque<ProcessId>, pid: ProcessId) -> (r: VecDeque<ProcessId>)
    ensures
        r@ == queue@.filter(not_pid(pid)),
        !r@.contains(pid),
        queue@.len() == 0 ==> r@.len() == 0,
{
    let ghost pred = not_pid(pid);
    let mut out: VecDeque<ProcessId> = VecDeque::new();
    let mut rest = queue;
    let ghost mut processed: Seq<ProcessId> = Seq::empty();
    proof {
        assert(processed.filter(pred) =~= Seq::<ProcessId>::empty()) by {
            reveal(Seq::filter);
        }
    }
    while rest.len() != 0
        invariant
            queue@ =~= processed + rest@,
            out@ == processed.filter(pred),
            !out@.contains(pid),
            pred == not_pid(pid),
        decreases rest@.len(),
    {
        if let Some(p) = rest.pop_front() {
            if p.0 != pid.0 {
                out.push_back(p);
            }
            proof {
                let before = processed;
                processed = processed.push(p);
                assert(processed.drop_last() =~= before);
                assert(processed.last() == p);
                assert(processed.filter(pred) == if pred(p) {
                    before.filter(pred).push(p)
                } else {
                    before.filter(pred)
                }) by {
                    reveal(Seq::filter);
                }
                if pred(p) {
                    assert(!out@.contains(pid)) by {
                        assert(forall|j: int|
                            0 <= j < out@.len() - 1 ==> out@[j] == before.filter(pred)[j]);
                    }
                }
            }
        }
    }
    proof {
        assert(processed =~= queue@);
    }
    out
}

} // verus!

