//! The one-shot store of outstanding challenges.
//!
//! Every consume removes the task first, whatever the outcome of the checks
//! that follow, so that a task can be used at most once.
use vstd::prelude::*;
use crate::bytes_text::str_eq;

verus! {

/// Random identifier of a task, hex-encoded.
#[derive(Debug, Clone)]
pub struct TaskId(pub String);

/// Random value that binds a puzzle to one issuance, base64url-encoded.
#[derive(Debug, Clone)]
pub struct Seed(pub String);

/// Truncated digest of the user agent a task was issued to.
#[derive(Debug, Clone)]
pub struct UaHash(pub String);

/// Truncated digest of the client address a task was issued to; empty when
/// addresses are not bound.
#[derive(Debug, Clone)]
pub struct IpHash(pub String);

/// The Host a task was issued for.
#[derive(Debug, Clone)]
pub struct Scope(pub String);

/// Why a consume failed.
#[derive(Debug, Clone, Copy)]
pub enum ConsumeError {
    NotFound,
    Expired,
    ValidationFailed(&'static str),
}

/// An issued challenge.
#[derive(Debug, Clone)]
pub struct Task {
    pub task_id: TaskId,
    pub seed: Seed,
    pub bits: u32,
    pub exp: i64,
    pub scope: Scope,
    pub ua_hash: UaHash,
    pub ip_hash: IpHash,
}

impl TaskId {
    /// The first six characters, for logs.
    pub fn short_id(&self) -> (r: &str)
        ensures
            r@ == self.0@.subrange(0, if self.0@.len() < 6 { self.0@.len() as int } else { 6 }),
    {
        let s = self.0.as_str();
        let n = s.unicode_len();
        let k: usize = if n < 6 { n } else { 6 };
        s.substring_char(0, k)
    }
}

impl Task {
    /// A copy of the task, field by field.
    pub fn duplicate(&self) -> (r: Task)
        ensures
            r == *self,
    {
        Task {
            task_id: TaskId(self.task_id.0.clone()),
            seed: Seed(self.seed.0.clone()),
            bits: self.bits,
            exp: self.exp,
            scope: Scope(self.scope.0.clone()),
            ua_hash: UaHash(self.ua_hash.0.clone()),
            ip_hash: IpHash(self.ip_hash.0.clone()),
        }
    }
}

/// Whether some task in `s` has id `k`.
pub open spec fn has_id(s: Seq<Task>, k: Seq<char>) -> bool {
    exists|i: int| 0 <= i < s.len() && s[i].task_id.0@ == k
}

/// No two tasks in `s` share an id.
pub open spec fn ids_unique(s: Seq<Task>) -> bool {
    forall|i: int, j: int|
        0 <= i < s.len() && 0 <= j < s.len() && i != j ==> s[i].task_id.0@ != s[j].task_id.0@
}

/// The tasks of `s` keyed by id.
pub open spec fn tasks_by_id(s: Seq<Task>) -> Map<Seq<char>, Task> {
    Map::new(
        |k: Seq<char>| has_id(s, k),
        |k: Seq<char>| s[choose|i: int| 0 <= i < s.len() && s[i].task_id.0@ == k],
    )
}

proof fn lemma_lookup_at(s: Seq<Task>, j: int)
    requires
        ids_unique(s),
        0 <= j < s.len(),
    ensures
        tasks_by_id(s).contains_key(s[j].task_id.0@),
        tasks_by_id(s)[s[j].task_id.0@] == s[j],
{
    let k = s[j].task_id.0@;
    assert(has_id(s, k));
    let i = choose|i: int| 0 <= i < s.len() && s[i].task_id.0@ == k;
    assert(i == j);
}

/// The tasks that are still outstanding.
pub struct TaskStore {
    tasks: Vec<Task>,
}

impl View for TaskStore {
    type V = Map<Seq<char>, Task>;

    closed spec fn view(&self) -> Map<Seq<char>, Task> {
        tasks_by_id(self.tasks@)
    }
}

impl TaskStore {
    /// Ids are unique.
    pub closed spec fn wf(&self) -> bool {
        ids_unique(self.tasks@)
    }

    /// An empty store.
    pub fn new() -> (r: TaskStore)
        ensures
            r.wf(),
            r@ == Map::<Seq<char>, Task>::empty(),
    {
        let r = TaskStore { tasks: Vec::new() };
        assert(r@ =~= Map::<Seq<char>, Task>::empty());
        r
    }

    /// The number of outstanding tasks.
    pub fn len(&self) -> (r: usize)
        requires
            self.wf(),
        ensures
            r as nat == self@.len(),
    {
        proof {
            self.lemma_len();
        }
        self.tasks.len()
    }

    proof fn lemma_len(&self)
        requires
            self.wf(),
        ensures
            self@.len() == self.tasks@.len(),
        decreases self.tasks@.len(),
    {
        let s = self.tasks@;
        let ks = s.map_values(|t: Task| t.task_id.0@);
        assert(self@.dom() =~= ks.to_set()) by {
            assert forall|k: Seq<char>| self@.dom().contains(k) implies ks.to_set().contains(k) by {
                let i = choose|i: int| 0 <= i < s.len() && s[i].task_id.0@ == k;
                assert(ks[i] == k);
            }
            assert forall|k: Seq<char>| ks.to_set().contains(k) implies self@.dom().contains(k) by {
                let i = choose|i: int| 0 <= i < ks.len() && ks[i] == k;
                assert(s[i].task_id.0@ == k);
            }
        }
        assert(ks.no_duplicates());
        ks.unique_seq_to_set();
    }

    /// The index of the task with id `k`, if any.
    fn position(&self, k: &str) -> (r: Option<usize>)
        requires
            self.wf(),
        ensures
            match r {
                Some(i) => i < self.tasks@.len() && self.tasks@[i as int].task_id.0@ == k@,
                None => !has_id(self.tasks@, k@),
            },
    {
        let mut i: usize = 0;
        while i < self.tasks.len()
            invariant
                0 <= i <= self.tasks@.len(),
                forall|j: int| 0 <= j < i ==> self.tasks@[j].task_id.0@ != k@,
            decreases self.tasks@.len() - i,
        {
            if str_eq(self.tasks[i].task_id.0.as_str(), k) {
                return Some(i);
            }
            i = i + 1;
        }
        None
    }

    /// Takes the task at index `i` out of the store.
    fn take_at(&mut self, i: usize) -> (r: Task)
        requires
            old(self).wf(),
            i < old(self).tasks@.len(),
        ensures
            final(self).wf(),
            r == old(self).tasks@[i as int],
            final(self)@ == old(self)@.remove(r.task_id.0@),
    {
        let ghost s = self.tasks@;
        let t = self.tasks.remove(i);
        proof {
            let s2 = self.tasks@;
            assert(s2 == s.remove(i as int));
            assert forall|a: int, b: int|
                0 <= a < s2.len() && 0 <= b < s2.len() && a != b implies s2[a].task_id.0@ != s2[b].task_id.0@ by {
                let a2 = if a < i { a } else { a + 1 };
                let b2 = if b < i { b } else { b + 1 };
                assert(s2[a] == s[a2] && s2[b] == s[b2]);
            }
            let k = t.task_id.0@;
            assert forall|key: Seq<char>| self@.contains_key(key) <==> old(self)@.remove(k).contains_key(key) by {
                if has_id(s2, key) {
                    let a = choose|a: int| 0 <= a < s2.len() && s2[a].task_id.0@ == key;
                    let a2 = if a < i { a } else { a + 1 };
                    assert(s2[a] == s[a2]);
                    assert(has_id(s, key));
                    assert(a2 != i);
                }
                if has_id(s, key) && key != k {
                    let a = choose|a: int| 0 <= a < s.len() && s[a].task_id.0@ == key;
                    assert(a != i);
                    let a2 = if a < i { a } else { a - 1 };
                    assert(s2[a2] == s[a]);
                }
            }
            assert forall|key: Seq<char>| #[trigger] self@.contains_key(key) implies self@[key] == old(self)@[key] by {
                let a = choose|a: int| 0 <= a < s2.len() && s2[a].task_id.0@ == key;
                let a2 = if a < i { a } else { a + 1 };
                assert(s2[a] == s[a2]);
                lemma_lookup_at(s2, a);
                lemma_lookup_at(s, a2);
            }
            assert(self@ =~= old(self)@.remove(k));
        }
        t
    }

    /// Adds `task`, replacing a task with the same id.
    pub fn insert(&mut self, task: Task)
        requires
            old(self).wf(),
        ensures
            final(self).wf(),
            final(self)@ == old(self)@.insert(task.task_id.0@, task),
    {
        let ghost k = task.task_id.0@;
        match self.position(task.task_id.0.as_str()) {
            Some(i) => {
                let _ = self.take_at(i);
            },
            None => {
                assert(!old(self)@.contains_key(k));
                assert(old(self)@.remove(k) =~= old(self)@);
            },
        }
        let ghost mid = self@;
        let ghost s = self.tasks@;
        assert(!self@.contains_key(k));
        assert(!has_id(s, k));
        self.tasks.push(task);
        proof {
            let s2 = self.tasks@;
            assert(s2 == s.push(task));
            assert forall|a: int, b: int|
                0 <= a < s2.len() && 0 <= b < s2.len() && a != b implies s2[a].task_id.0@ != s2[b].task_id.0@ by {
                if a < s.len() && b < s.len() {
                    assert(s2[a] == s[a] && s2[b] == s[b]);
                } else if a < s.len() {
                    assert(s2[a] == s[a]);
                } else if b < s.len() {
                    assert(s2[b] == s[b]);
                }
            }
            assert forall|key: Seq<char>| self@.contains_key(key) <==> mid.insert(k, task).contains_key(key) by {
                if has_id(s, key) {
                    let a = choose|a: int| 0 <= a < s.len() && s[a].task_id.0@ == key;
                    assert(s2[a] == s[a]);
                }
                if has_id(s2, key) && key != k {
                    let a = choose|a: int| 0 <= a < s2.len() && s2[a].task_id.0@ == key;
                    assert(a < s.len());
                    assert(s2[a] == s[a]);
                }
                assert(s2[s.len() as int] == task);
            }
            assert forall|key: Seq<char>| #[trigger] self@.contains_key(key) implies self@[key] == mid.insert(k, task)[key] by {
                let a = choose|a: int| 0 <= a < s2.len() && s2[a].task_id.0@ == key;
                lemma_lookup_at(s2, a);
                if a < s.len() {
                    assert(s2[a] == s[a]);
                    lemma_lookup_at(s, a);
                } else {
                    assert(s2[a] == task);
                }
            }
            assert(self@ =~= mid.insert(k, task));
            assert(mid.insert(k, task) =~= old(self)@.insert(k, task));
        }
    }

    /// Removes the task with id `task_id`, then checks it: a missing task
    /// fails `NotFound`, one whose `exp` is before `now` fails `Expired`,
    /// and otherwise `validate` decides. The task is gone from the store
    /// whatever the outcome.
    pub fn consume_if<F>(&mut self, task_id: &str, now: i64, validate: F) -> (r: Result<Task, ConsumeError>)
        where
            F: FnOnce(&Task) -> Result<(), ConsumeError>,
        requires
            old(self).wf(),
            forall|t: &Task| validate.requires((t,)),
        ensures
            final(self).wf(),
            final(self)@ == old(self)@.remove(task_id@),
            !old(self)@.contains_key(task_id@) ==> r matches Err(ConsumeError::NotFound),
            old(self)@.contains_key(task_id@) && old(self)@[task_id@].exp < now
                ==> r matches Err(ConsumeError::Expired),
            old(self)@.contains_key(task_id@) && old(self)@[task_id@].exp >= now ==> match r {
                Ok(t) => t == old(self)@[task_id@] && validate.ensures((&old(self)@[task_id@],), Ok(())),
                Err(e) => validate.ensures((&old(self)@[task_id@],), Err(e)),
            },
    {
        let i = match self.position(task_id) {
            Some(i) => i,
            None => {
                assert(old(self)@.remove(task_id@) =~= old(self)@);
                return Err(ConsumeError::NotFound);
            },
        };
        proof {
            lemma_lookup_at(self.tasks@, i as int);
        }
        let task = self.take_at(i);
        if task.exp < now {
            return Err(ConsumeError::Expired);
        }
        let res = validate(&task);
        assert(validate.ensures((&task,), res));
        match res {
            Ok(u) => {
                assert(task == old(self)@[task_id@]);
                assert(u == ());
                assert(res == Ok::<(), ConsumeError>(()));
                Ok(task)
            },
            Err(e) => Err(e),
        }
    }

    /// Drops every task whose `exp` is before `now`.
    pub fn cleanup(&mut self, now: i64)
        requires
            old(self).wf(),
        ensures
            final(self).wf(),
            forall|k: Seq<char>| #[trigger] final(self)@.contains_key(k)
                <==> old(self)@.contains_key(k) && old(self)@[k].exp >= now,
            forall|k: Seq<char>| #[trigger] final(self)@.contains_key(k) ==> final(self)@[k] == old(self)@[k],
    {
        let ghost s = self.tasks@;
        let mut kept: Vec<Task> = Vec::new();
        let mut i: usize = 0;
        let ghost mut idx: Seq<int> = Seq::empty();
        while i < self.tasks.len()
            invariant
                s == self.tasks@,
                ids_unique(s),
                0 <= i <= s.len(),
                idx.len() == kept@.len(),
                forall|a: int| 0 <= a < idx.len() ==> 0 <= #[trigger] idx[a] < i && kept@[a] == s[idx[a]] && s[idx[a]].exp >= now,
                forall|a: int, b: int| 0 <= a < b < idx.len() ==> idx[a] < idx[b],
                forall|j: int| 0 <= j < i && s[j].exp >= now ==> exists|a: int| 0 <= a < idx.len() && idx[a] == j,
            decreases s.len() - i,
        {
            if self.tasks[i].exp >= now {
                let t = self.tasks[i].duplicate();
                kept.push(t);
                proof {
                    let prev = idx;
                    idx = idx.push(i as int);
                    assert(idx[idx.len() - 1] == i);
                    assert forall|j: int| 0 <= j < i + 1 && s[j].exp >= now implies exists|a: int| 0 <= a < idx.len() && idx[a] == j by {
                        if j == i {
                            assert(idx[idx.len() - 1] == j);
                        } else {
                            let a = choose|a: int| 0 <= a < prev.len() && prev[a] == j;
                            assert(idx[a] == j);
                        }
                    }
                }
            }
            i = i + 1;
        }
        let ghost s2 = kept@;
        proof {
            assert forall|a: int, b: int|
                0 <= a < s2.len() && 0 <= b < s2.len() && a != b implies s2[a].task_id.0@ != s2[b].task_id.0@ by {
                if a < b { assert(idx[a] < idx[b]); } else { assert(idx[b] < idx[a]); }
            }
            assert forall|k: Seq<char>| #[trigger] tasks_by_id(s2).contains_key(k)
                <==> tasks_by_id(s).contains_key(k) && tasks_by_id(s)[k].exp >= now by {
                if has_id(s2, k) {
                    let a = choose|a: int| 0 <= a < s2.len() && s2[a].task_id.0@ == k;
                    lemma_lookup_at(s, idx[a]);
                }
                if has_id(s, k) {
                    let j = choose|j: int| 0 <= j < s.len() && s[j].task_id.0@ == k;
                    lemma_lookup_at(s, j);
                    if s[j].exp >= now {
                        let a = choose|a: int| 0 <= a < idx.len() && idx[a] == j;
                        assert(s2[a].task_id.0@ == k);
                    }
                }
            }
            assert forall|k: Seq<char>| #[trigger] tasks_by_id(s2).contains_key(k) implies tasks_by_id(s2)[k] == tasks_by_id(s)[k] by {
                let a = choose|a: int| 0 <= a < s2.len() && s2[a].task_id.0@ == k;
                lemma_lookup_at(s2, a);
                lemma_lookup_at(s, idx[a]);
            }
        }
        self.tasks = kept;
    }
}

} // verus!
