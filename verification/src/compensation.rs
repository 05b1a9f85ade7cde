//! The registry of compensations: at most one per task, looked up by the
//! task's identifier, and the coverage of a workflow's tasks by it.

use crate::checkpoint::id_texts;
use crate::dag::lists_id;
use crate::task::TaskId;
use vstd::prelude::*;

verus! {

/// No two entries are for the same task.
pub open spec fn distinct_tasks<C>(s: Seq<(TaskId, C)>) -> bool {
    forall|i: int, k: int| 0 <= i < s.len() && 0 <= k < s.len() && i != k ==> #[trigger] s[i].0@ != #[trigger] s[k].0@
}

/// Some entry of `s` is for task `x`.
pub open spec fn has_task_entry<C>(s: Seq<(TaskId, C)>, x: Seq<char>) -> bool {
    exists|i: int| 0 <= i < s.len() && #[trigger] s[i].0@ == x
}

/// The compensation `s` holds for task `x` (meaningful when `has_task_entry`).
pub open spec fn entry_of<C>(s: Seq<(TaskId, C)>, x: Seq<char>) -> C {
    s[choose|i: int| 0 <= i < s.len() && #[trigger] s[i].0@ == x].1
}

/// With distinct tasks, the entry for the task at `i` is the one at `i`.
proof fn lemma_entry_of_at<C>(s: Seq<(TaskId, C)>, i: int)
    requires
        distinct_tasks(s),
        0 <= i < s.len(),
    ensures
        has_task_entry(s, s[i].0@),
        entry_of(s, s[i].0@) == s[i].1,
{
    assert(s[i].0@ == s[i].0@);
    let j = choose|j: int| 0 <= j < s.len() && #[trigger] s[j].0@ == s[i].0@;
    assert(j == i);
}

/// Compensations by task, each task at most once.
pub struct CompensationRegistry<C> {
    entries: Vec<(TaskId, C)>,
}

impl<C> Default for CompensationRegistry<C> {
    fn default() -> (r: CompensationRegistry<C>)
        ensures
            r.wf(),
            r.entries().len() == 0,
    {
        CompensationRegistry::new()
    }
}

impl<C> CompensationRegistry<C> {
    /// The entries, in the order their tasks were first registered.
    pub closed spec fn entries(&self) -> Seq<(TaskId, C)> {
        self.entries@
    }

    /// No task has two entries.
    pub open spec fn wf(&self) -> bool {
        distinct_tasks(self.entries())
    }

    /// Task `x` has a compensation.
    pub open spec fn has(&self, x: Seq<char>) -> bool {
        has_task_entry(self.entries(), x)
    }

    /// The compensation of task `x`.
    pub open spec fn compensation(&self, x: Seq<char>) -> C {
        entry_of(self.entries(), x)
    }

    /// An empty registry.
    pub fn new() -> (r: CompensationRegistry<C>)
        ensures
            r.wf(),
            r.entries().len() == 0,
    {
        CompensationRegistry { entries: Vec::new() }
    }

    /// Where the entry of task `x` is, if anywhere.
    fn position_of(&self, task_id: &TaskId) -> (r: Option<usize>)
        ensures
            r matches Some(i) ==> i < self.entries().len() && self.entries()[i as int].0@ == task_id@,
            r is None ==> forall|k: int| 0 <= k < self.entries().len() ==> #[trigger] self.entries()[k].0@ != task_id@,
    {
        let mut i: usize = 0;
        while i < self.entries.len()
            invariant
                i <= self.entries@.len(),
                forall|k: int| 0 <= k < i ==> #[trigger] self.entries@[k].0@ != task_id@,
            decreases self.entries@.len() - i,
        {
            if self.entries[i].0 == *task_id {
                return Some(i);
            }
            i = i + 1;
        }
        None
    }

    /// Registers the task's compensation, replacing one it had.
    pub fn register(&mut self, task_id: TaskId, compensation: C)
        requires
            old(self).wf(),
        ensures
            final(self).wf(),
            final(self).has(task_id@),
            final(self).compensation(task_id@) == compensation,
            forall|x: Seq<char>| x != task_id@ ==> #[trigger] final(self).has(x) == old(self).has(x),
            forall|x: Seq<char>|
                x != task_id@ && old(self).has(x) ==> #[trigger] final(self).compensation(x) == old(self).compensation(x),
    {
        let ghost s0 = self.entries@;
        let ghost tv = task_id@;
        match self.position_of(&task_id) {
            Some(i) => {
                self.entries.set(i, (task_id, compensation));
                proof {
                    let s1 = self.entries@;
                    assert(s1[i as int].0@ == tv);
                    assert(distinct_tasks(s1)) by {
                        assert forall|a: int, b: int|
                            0 <= a < s1.len() && 0 <= b < s1.len() && a != b implies #[trigger] s1[a].0@
                            != #[trigger] s1[b].0@ by {
                            if a != i as int && b != i as int {
                                assert(s1[a] == s0[a] && s1[b] == s0[b]);
                            } else if a == i as int {
                                assert(s1[b] == s0[b]);
                            } else {
                                assert(s1[a] == s0[a]);
                            }
                        }
                    }
                    lemma_entry_of_at(s1, i as int);
                    assert forall|x: Seq<char>|
                        #![trigger has_task_entry(s1, x)]
                        #![trigger entry_of(s1, x)]
                        x != tv implies has_task_entry(s1, x) == has_task_entry(s0, x) && (has_task_entry(s0, x)
                            ==> entry_of(s1, x) == entry_of(s0, x)) by {
                        if has_task_entry(s0, x) {
                            let j = choose|j: int| 0 <= j < s0.len() && #[trigger] s0[j].0@ == x;
                            assert(j != i as int);
                            assert(s1[j] == s0[j]);
                            lemma_entry_of_at(s0, j);
                            lemma_entry_of_at(s1, j);
                        }
                        if has_task_entry(s1, x) {
                            let j = choose|j: int| 0 <= j < s1.len() && #[trigger] s1[j].0@ == x;
                            assert(j != i as int);
                            assert(s1[j] == s0[j]);
                        }
                    }
                }
            },
            None => {
                self.entries.push((task_id, compensation));
                proof {
                    let s1 = self.entries@;
                    assert(distinct_tasks(s1)) by {
                        assert forall|a: int, b: int|
                            0 <= a < s1.len() && 0 <= b < s1.len() && a != b implies #[trigger] s1[a].0@
                            != #[trigger] s1[b].0@ by {
                            if a < s0.len() && b < s0.len() {
                                assert(s1[a] == s0[a] && s1[b] == s0[b]);
                            } else if a < s0.len() {
                                assert(s1[a] == s0[a]);
                            } else {
                                assert(s1[b] == s0[b]);
                            }
                        }
                    }
                    lemma_entry_of_at(s1, s0.len() as int);
                    assert forall|x: Seq<char>|
                        #![trigger has_task_entry(s1, x)]
                        #![trigger entry_of(s1, x)]
                        x != tv implies has_task_entry(s1, x) == has_task_entry(s0, x) && (has_task_entry(s0, x)
                            ==> entry_of(s1, x) == entry_of(s0, x)) by {
                        if has_task_entry(s0, x) {
                            let j = choose|j: int| 0 <= j < s0.len() && #[trigger] s0[j].0@ == x;
                            assert(s1[j] == s0[j]);
                            lemma_entry_of_at(s0, j);
                            lemma_entry_of_at(s1, j);
                        }
                        if has_task_entry(s1, x) {
                            let j = choose|j: int| 0 <= j < s1.len() && #[trigger] s1[j].0@ == x;
                            if j < s0.len() {
                                assert(s1[j] == s0[j]);
                            }
                        }
                    }
                }
            },
        }
    }

    /// The task's compensation, if it has one.
    pub fn get(&self, task_id: &TaskId) -> (r: Option<&C>)
        requires
            self.wf(),
        ensures
            r is Some <==> self.has(task_id@),
            r matches Some(c) ==> *c == self.compensation(task_id@),
    {
        match self.position_of(task_id) {
            Some(i) => {
                proof {
                    lemma_entry_of_at(self.entries@, i as int);
                }
                Some(&self.entries[i].1)
            },
            None => None,
        }
    }

    /// Whether the task has a compensation.
    pub fn has_compensation(&self, task_id: &TaskId) -> (r: bool)
        ensures
            r == self.has(task_id@),
    {
        self.position_of(task_id).is_some()
    }

    /// Removes the task's compensation and returns it, if it had one.
    pub fn remove(&mut self, task_id: &TaskId) -> (r: Option<C>)
        requires
            old(self).wf(),
        ensures
            final(self).wf(),
            !final(self).has(task_id@),
            r is Some <==> old(self).has(task_id@),
            r matches Some(c) ==> c == old(self).compensation(task_id@),
            forall|x: Seq<char>| x != task_id@ ==> #[trigger] final(self).has(x) == old(self).has(x),
            forall|x: Seq<char>|
                x != task_id@ && old(self).has(x) ==> #[trigger] final(self).compensation(x) == old(self).compensation(x),
    {
        let ghost s0 = self.entries@;
        match self.position_of(task_id) {
            Some(i) => {
                proof {
                    lemma_entry_of_at(s0, i as int);
                }
                let removed = self.entries.remove(i);
                proof {
                    let s1 = self.entries@;
                    assert forall|k: int| 0 <= k < s1.len() implies #[trigger] s1[k] == if k < i {
                        s0[k]
                    } else {
                        s0[k + 1]
                    } by {}
                    assert(distinct_tasks(s1)) by {
                        assert forall|a: int, b: int|
                            0 <= a < s1.len() && 0 <= b < s1.len() && a != b implies #[trigger] s1[a].0@
                            != #[trigger] s1[b].0@ by {
                            let a0 = if a < i { a } else { a + 1 };
                            let b0 = if b < i { b } else { b + 1 };
                            assert(s1[a] == s0[a0] && s1[b] == s0[b0]);
                        }
                    }
                    if has_task_entry(s1, task_id@) {
                        let j = choose|j: int| 0 <= j < s1.len() && #[trigger] s1[j].0@ == task_id@;
                        let j0 = if j < i { j } else { j + 1 };
                        assert(s1[j] == s0[j0]);
                    }
                    assert forall|x: Seq<char>|
                        #![trigger has_task_entry(s1, x)]
                        #![trigger entry_of(s1, x)]
                        x != task_id@ implies has_task_entry(s1, x) == has_task_entry(s0, x) && (has_task_entry(s0, x)
                            ==> entry_of(s1, x) == entry_of(s0, x)) by {
                        if has_task_entry(s0, x) {
                            let j = choose|j: int| 0 <= j < s0.len() && #[trigger] s0[j].0@ == x;
                            assert(j != i as int);
                            let j1 = if j < i { j } else { j - 1 };
                            assert(s1[j1] == s0[j]);
                            lemma_entry_of_at(s0, j);
                            lemma_entry_of_at(s1, j1);
                        }
                        if has_task_entry(s1, x) {
                            let j = choose|j: int| 0 <= j < s1.len() && #[trigger] s1[j].0@ == x;
                            let j0 = if j < i { j } else { j + 1 };
                            assert(s1[j] == s0[j0]);
                        }
                    }
                }
                Some(removed.1)
            },
            None => None,
        }
    }

    /// How many tasks have a compensation.
    pub fn len(&self) -> (r: usize)
        ensures
            r == self.entries().len(),
    {
        self.entries.len()
    }

    /// Whether no task has a compensation.
    pub fn is_empty(&self) -> (r: bool)
        ensures
            r == (self.entries().len() == 0),
    {
        self.entries.len() == 0
    }

    /// The tasks that have a compensation, each once.
    pub fn task_ids(&self) -> (r: Vec<TaskId>)
        requires
            self.wf(),
        ensures
            r@.len() == self.entries().len(),
            forall|x: Seq<char>| #[trigger] lists_id(r@, x) <==> self.has(x),
    {
        let mut out: Vec<TaskId> = Vec::new();
        let mut i: usize = 0;
        while i < self.entries.len()
            invariant
                i <= self.entries@.len(),
                out@.len() == i,
                forall|k: int| 0 <= k < i ==> #[trigger] out@[k]@ == self.entries@[k].0@,
            decreases self.entries@.len() - i,
        {
            out.push(self.entries[i].0.clone());
            i = i + 1;
        }
        proof {
            assert forall|x: Seq<char>| #[trigger] lists_id(out@, x) <==> self.has(x) by {
                if lists_id(out@, x) {
                    let k = choose|k: int| 0 <= k < out@.len() && #[trigger] out@[k]@ == x;
                    assert(self.entries@[k].0@ == x);
                }
                if self.has(x) {
                    let k = choose|k: int| 0 <= k < self.entries@.len() && #[trigger] self.entries@[k].0@ == x;
                    assert(out@[k]@ == x);
                }
            }
        }
        out
    }

    /// The given tasks split by whether they have a compensation, each part
    /// in the given order.
    pub fn coverage(&self, task_ids: &[TaskId]) -> (r: (Vec<TaskId>, Vec<TaskId>))
        ensures
            id_texts(r.0@) == id_texts(task_ids@.filter(|t: TaskId| self.has(t@))),
            id_texts(r.1@) == id_texts(task_ids@.filter(|t: TaskId| !self.has(t@))),
    {
        let ghost with_pred = |t: TaskId| self.has(t@);
        let ghost without_pred = |t: TaskId| !self.has(t@);
        let mut with: Vec<TaskId> = Vec::new();
        let mut without: Vec<TaskId> = Vec::new();
        let mut i: usize = 0;
        proof {
            assert(task_ids@.subrange(0, 0) =~= Seq::<TaskId>::empty());
            reveal(Seq::filter);
            assert(id_texts(with@) =~= id_texts(task_ids@.subrange(0, 0).filter(with_pred)));
            assert(id_texts(without@) =~= id_texts(task_ids@.subrange(0, 0).filter(without_pred)));
        }
        while i < task_ids.len()
            invariant
                i <= task_ids@.len(),
                with_pred == (|t: TaskId| self.has(t@)),
                without_pred == (|t: TaskId| !self.has(t@)),
                id_texts(with@) == id_texts(task_ids@.subrange(0, i as int).filter(with_pred)),
                id_texts(without@) == id_texts(task_ids@.subrange(0, i as int).filter(without_pred)),
            decreases task_ids@.len() - i,
        {
            let t = &task_ids[i];
            let ghost pre = task_ids@.subrange(0, i as int);
            proof {
                let next = task_ids@.subrange(0, i + 1);
                assert(next =~= pre.push(task_ids@[i as int]));
                pre.lemma_filter_push(task_ids@[i as int], with_pred);
                pre.lemma_filter_push(task_ids@[i as int], without_pred);
            }
            let ghost w0 = with@;
            let ghost o0 = without@;
            if self.has_compensation(t) {
                with.push(t.clone());
                proof {
                    assert(id_texts(with@) =~= id_texts(w0).push(t@));
                    assert(id_texts(pre.push(*t).filter(with_pred)) =~= id_texts(pre.filter(with_pred)).push(t@));
                }
            } else {
                without.push(t.clone());
                proof {
                    assert(id_texts(without@) =~= id_texts(o0).push(t@));
                    assert(id_texts(pre.push(*t).filter(without_pred)) =~= id_texts(pre.filter(without_pred)).push(t@));
                }
            }
            i = i + 1;
        }
        proof {
            assert(task_ids@.subrange(0, task_ids@.len() as int) =~= task_ids@);
        }
        (with, without)
    }
}

} // verus!
