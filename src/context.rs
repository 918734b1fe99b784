use vstd::prelude::*;

use crate::error::AppError;
use crate::task::{horizon_rank, priority_rank, Task, TimeHorizon};

verus! {

/// A named list of tasks, in the order they were added.
#[derive(Debug, Clone)]
pub struct Context {
    pub name: String,
    pub tasks: Vec<Task>,
}

impl View for Context {
    type V = (Seq<char>, Seq<Task>);

    open spec fn view(&self) -> (Seq<char>, Seq<Task>) {
        (self.name@, self.tasks@)
    }
}

/// `i` is the first position in `tasks` whose id is `id`.
pub open spec fn is_first_with_id(tasks: Seq<Task>, id: Seq<char>, i: int) -> bool {
    &&& 0 <= i < tasks.len()
    &&& tasks[i].id@ == id
    &&& forall|j: int| 0 <= j < i ==> tasks[j].id@ != id
}

/// Some task in `tasks` has the id `id`.
pub open spec fn has_id(tasks: Seq<Task>, id: Seq<char>) -> bool {
    exists|i: int| 0 <= i < tasks.len() && tasks[i].id@ == id
}

/// The first position in `tasks` whose id is `id`, when there is one.
pub open spec fn first_with_id(tasks: Seq<Task>, id: Seq<char>) -> int {
    choose|i: int| is_first_with_id(tasks, id, i)
}

/// The tasks that a sequence of references points to.
pub open spec fn tasks_of(s: Seq<&Task>) -> Seq<Task> {
    s.map_values(|t: &Task| *t)
}

/// The tasks whose horizon is `h`, in their order.
pub open spec fn with_horizon(tasks: Seq<Task>, h: TimeHorizon) -> Seq<Task> {
    tasks.filter(|t: Task| t.time_horizon == h)
}

/// The place of a task in display order: horizons ascending, and within a
/// horizon priorities descending.
pub open spec fn display_rank(t: Task) -> nat {
    horizon_rank(t.time_horizon) * 3 + (2 - priority_rank(t.priority)) as nat
}

/// The tasks of display rank `k`, in their order.
pub open spec fn with_rank(tasks: Seq<Task>, k: nat) -> Seq<Task> {
    tasks.filter(|t: Task| display_rank(t) == k)
}

/// The tasks of display rank `k` and above, grouped by rank; within a rank
/// they keep their order.
pub open spec fn ranks_from(tasks: Seq<Task>, k: nat) -> Seq<Task>
    decreases 9 - k,
{
    if k >= 9 {
        Seq::empty()
    } else {
        with_rank(tasks, k) + ranks_from(tasks, k + 1)
    }
}

/// The tasks in display order: a stable sort by display rank.
pub open spec fn display_order(tasks: Seq<Task>) -> Seq<Task> {
    ranks_from(tasks, 0)
}

proof fn lemma_first_unique(tasks: Seq<Task>, id: Seq<char>, i: int)
    requires
        is_first_with_id(tasks, id, i),
    ensures
        first_with_id(tasks, id) == i,
        has_id(tasks, id),
{
    let j = first_with_id(tasks, id);
    assert(is_first_with_id(tasks, id, j));
    if j < i {
        assert(tasks[j].id@ != id);
    } else if j > i {
        assert(tasks[i].id@ != id);
    }
}

pub(crate) proof fn lemma_filter_step(s: Seq<Task>, pred: spec_fn(Task) -> bool, i: int)
    requires
        0 <= i < s.len(),
    ensures
        s.subrange(0, i + 1).filter(pred) == if pred(s[i]) {
            s.subrange(0, i).filter(pred).push(s[i])
        } else {
            s.subrange(0, i).filter(pred)
        },
{
    reveal(Seq::filter);
    assert(s.subrange(0, i + 1).drop_last() =~= s.subrange(0, i));
}

proof fn lemma_horizon_step(s: Seq<Task>, h: TimeHorizon, i: int)
    requires
        0 <= i < s.len(),
    ensures
        with_horizon(s.subrange(0, i + 1), h) == if s[i].time_horizon == h {
            with_horizon(s.subrange(0, i), h).push(s[i])
        } else {
            with_horizon(s.subrange(0, i), h)
        },
{
    lemma_filter_step(s, |t: Task| t.time_horizon == h, i);
}

proof fn lemma_rank_step(s: Seq<Task>, k: nat, i: int)
    requires
        0 <= i < s.len(),
    ensures
        with_rank(s.subrange(0, i + 1), k) == if display_rank(s[i]) == k {
            with_rank(s.subrange(0, i), k).push(s[i])
        } else {
            with_rank(s.subrange(0, i), k)
        },
{
    lemma_filter_step(s, |t: Task| display_rank(t) == k, i);
}

impl Context {
    /// An empty context with the given name.
    pub fn new(name: String) -> (c: Context)
        ensures
            c.name == name,
            c.tasks@ == Seq::<Task>::empty(),
    {
        Context { name, tasks: Vec::new() }
    }

    /// Appends a task; no check is made for a duplicate id.
    pub fn add_task(&mut self, task: Task)
        ensures
            final(self).name == old(self).name,
            final(self).tasks@ == old(self).tasks@.push(task),
    {
        self.tasks.push(task);
    }

    /// The position of the first task whose id is `id`.
    pub fn position(&self, id: &str) -> (r: Option<usize>)
        ensures
            match r {
                Some(i) => is_first_with_id(self.tasks@, id@, i as int) && first_with_id(
                    self.tasks@,
                    id@,
                ) == i,
                None => !has_id(self.tasks@, id@),
            },
    {
        let mut i: usize = 0;
        while i < self.tasks.len()
            invariant
                i <= self.tasks.len(),
                forall|j: int| 0 <= j < i ==> self.tasks@[j].id@ != id@,
            decreases self.tasks.len() - i,
        {
            if crate::text::str_eq(self.tasks[i].id.as_str(), id) {
                proof {
                    lemma_first_unique(self.tasks@, id@, i as int);
                }
                return Some(i);
            }
            i = i + 1;
        }
        None
    }

    /// The first task whose id is `id`.
    pub fn find_task(&self, id: &str) -> (r: Option<&Task>)
        ensures
            match r {
                Some(t) => has_id(self.tasks@, id@) && *t == self.tasks@[first_with_id(
                    self.tasks@,
                    id@,
                )],
                None => !has_id(self.tasks@, id@),
            },
    {
        match self.position(id) {
            Some(i) => Some(&self.tasks[i]),
            None => None,
        }
    }

    /// The first task whose id is `id`, for changing in place.
    pub fn find_task_mut(&mut self, id: &str) -> (r: Option<&mut Task>)
        ensures
            final(self).name == old(self).name,
            match r {
                Some(t) => has_id(old(self).tasks@, id@) && *t == old(self).tasks@[first_with_id(
                    old(self).tasks@,
                    id@,
                )] && final(self).tasks@ == old(self).tasks@.update(
                    first_with_id(old(self).tasks@, id@),
                    *final(t),
                ),
                None => !has_id(old(self).tasks@, id@) && *final(self) == *old(self),
            },
    {
        match self.position(id) {
            Some(i) => Some(&mut self.tasks[i]),
            None => None,
        }
    }

    /// Takes out the first task whose id is `id`; the others keep their order.
    pub fn remove_task(&mut self, id: &str) -> (r: Result<Task, AppError>)
        ensures
            final(self).name == old(self).name,
            match r {
                Ok(t) => has_id(old(self).tasks@, id@) && t == old(self).tasks@[first_with_id(
                    old(self).tasks@,
                    id@,
                )] && final(self).tasks@ == old(self).tasks@.remove(
                    first_with_id(old(self).tasks@, id@),
                ),
                Err(e) => !has_id(old(self).tasks@, id@) && *final(self) == *old(self) && (e matches AppError::TaskNotFound(m) && m@ == id@),
            },
    {
        match self.position(id) {
            Some(i) => Ok(self.tasks.remove(i)),
            None => Err(AppError::TaskNotFound(id.to_owned())),
        }
    }

    /// The tasks of the given horizon, in their order.
    pub fn tasks_by_horizon(&self, horizon: TimeHorizon) -> (r: Vec<&Task>)
        ensures
            tasks_of(r@) == with_horizon(self.tasks@, horizon),
    {
        let mut r: Vec<&Task> = Vec::new();
        let mut i: usize = 0;
        while i < self.tasks.len()
            invariant
                i <= self.tasks.len(),
                tasks_of(r@) == with_horizon(self.tasks@.subrange(0, i as int), horizon),
            decreases self.tasks.len() - i,
        {
            proof {
                lemma_horizon_step(self.tasks@, horizon, i as int);
            }
            if self.tasks[i].time_horizon == horizon {
                let ghost before = r@;
                r.push(&self.tasks[i]);
                assert(tasks_of(r@) =~= tasks_of(before).push(self.tasks@[i as int]));
            }
            i = i + 1;
        }
        assert(self.tasks@.subrange(0, self.tasks@.len() as int) =~= self.tasks@);
        r
    }

    /// The tasks in display order: horizons ascending and, within a horizon,
    /// priorities descending; tasks that tie keep their order.
    pub fn sorted_tasks(&self) -> (r: Vec<&Task>)
        ensures
            tasks_of(r@) == display_order(self.tasks@),
    {
        let mut r: Vec<&Task> = Vec::new();
        let mut k: u8 = 0;
        assert(tasks_of(r@) + ranks_from(self.tasks@, 0) =~= display_order(self.tasks@));
        while k < 9
            invariant
                k <= 9,
                tasks_of(r@) + ranks_from(self.tasks@, k as nat) == display_order(self.tasks@),
            decreases 9 - k,
        {
            let ghost start = tasks_of(r@);
            let mut i: usize = 0;
            while i < self.tasks.len()
                invariant
                    k < 9,
                    i <= self.tasks.len(),
                    tasks_of(r@) == start + with_rank(self.tasks@.subrange(0, i as int), k as nat),
                decreases self.tasks.len() - i,
            {
                proof {
                    lemma_rank_step(self.tasks@, k as nat, i as int);
                }
                if display_rank_of(&self.tasks[i]) == k {
                    let ghost before = r@;
                    r.push(&self.tasks[i]);
                    assert(tasks_of(r@) =~= tasks_of(before).push(self.tasks@[i as int]));
                }
                i = i + 1;
            }
            assert(self.tasks@.subrange(0, self.tasks@.len() as int) =~= self.tasks@);
            assert(ranks_from(self.tasks@, k as nat) == with_rank(self.tasks@, k as nat) + ranks_from(
                self.tasks@,
                (k + 1) as nat,
            ));
            assert(tasks_of(r@) + ranks_from(self.tasks@, (k + 1) as nat) =~= start + ranks_from(
                self.tasks@,
                k as nat,
            ));
            k = k + 1;
        }
        assert(tasks_of(r@) =~= tasks_of(r@) + ranks_from(self.tasks@, 9));
        r
    }
}

/// The display rank of a task, computed.
fn display_rank_of(t: &Task) -> (r: u8)
    ensures
        r as nat == display_rank(*t),
{
    t.time_horizon.rank() * 3 + (2 - t.priority.rank())
}

/// Contexts keyed by name. Keys are unique; the map is viewed as a
/// `Map` from key to the context's name and tasks.
#[derive(Debug, Clone)]
pub struct ContextMap {
    keys: Vec<String>,
    values: Vec<Context>,
}

impl View for ContextMap {
    type V = Map<Seq<char>, (Seq<char>, Seq<Task>)>;

    closed spec fn view(&self) -> Map<Seq<char>, (Seq<char>, Seq<Task>)> {
        Map::new(
            |k: Seq<char>| exists|i: int| self.key_at(k, i),
            |k: Seq<char>| self.values@[choose|i: int| self.key_at(k, i)]@,
        )
    }
}

impl ContextMap {
    /// The map's own invariant: one value per key, and no key twice.
    pub closed spec fn wf(&self) -> bool {
        &&& self.keys.len() == self.values.len()
        &&& forall|i: int, j: int|
            0 <= i < self.keys.len() && 0 <= j < self.keys.len() && i != j
                ==> self.keys@[i]@ != self.keys@[j]@
    }

    spec fn key_at(&self, k: Seq<char>, i: int) -> bool {
        0 <= i < self.keys.len() && self.keys@[i]@ == k
    }

    spec fn key_views(&self) -> Seq<Seq<char>> {
        self.keys@.map_values(|s: String| s@)
    }

    proof fn lemma_entry(&self, i: int)
        requires
            self.wf(),
            0 <= i < self.keys.len(),
        ensures
            self@.dom().contains(self.keys@[i]@),
            self@[self.keys@[i]@] == self.values@[i]@,
    {
        assert(self.key_at(self.keys@[i]@, i));
        let j = choose|j: int| self.key_at(self.keys@[i]@, j);
        assert(j == i);
    }

    proof fn lemma_entries(&self)
        requires
            self.wf(),
        ensures
            forall|i: int|
                0 <= i < self.keys.len() ==> self@.dom().contains(#[trigger] self.keys@[i]@)
                    && self@[self.keys@[i]@] == self.values@[i]@,
            forall|k: Seq<char>| #[trigger]
                self@.dom().contains(k) ==> exists|i: int| self.key_at(k, i),
    {
        assert forall|i: int| 0 <= i < self.keys.len() implies self@.dom().contains(
            #[trigger] self.keys@[i]@,
        ) && self@[self.keys@[i]@] == self.values@[i]@ by {
            self.lemma_entry(i);
        }
    }

    /// A well-formed map is finite and has one entry per key.
    pub proof fn lemma_finite(&self)
        requires
            self.wf(),
        ensures
            self@.dom().finite(),
            self@.len() == self.len_spec(),
            self@.len() <= usize::MAX,
    {
        self.lemma_entries();
        let kv = self.key_views();
        assert(kv.no_duplicates()) by {
            assert forall|i: int, j: int|
                0 <= i < kv.len() && 0 <= j < kv.len() && i != j implies kv[i] != kv[j] by {
                assert(kv[i] == self.keys@[i]@);
                assert(kv[j] == self.keys@[j]@);
            }
        }
        assert(self@.dom() =~= kv.to_set()) by {
            assert forall|k: Seq<char>| self@.dom().contains(k) implies kv.to_set().contains(k) by {
                let i = choose|i: int| self.key_at(k, i);
                assert(kv[i] == k);
            }
            assert forall|k: Seq<char>| kv.to_set().contains(k) implies self@.dom().contains(k) by {
                let i = choose|i: int| 0 <= i < kv.len() && kv[i] == k;
                assert(self.keys@[i]@ == k);
            }
        }
        kv.unique_seq_to_set();
    }

    /// The number of entries.
    pub closed spec fn len_spec(&self) -> nat {
        self.keys.len() as nat
    }

    /// An empty map.
    pub fn new() -> (m: ContextMap)
        ensures
            m.wf(),
            m@ == Map::<Seq<char>, (Seq<char>, Seq<Task>)>::empty(),
    {
        let m = ContextMap { keys: Vec::new(), values: Vec::new() };
        assert(m@ =~= Map::<Seq<char>, (Seq<char>, Seq<Task>)>::empty());
        m
    }

    fn find(&self, k: &str) -> (r: Option<usize>)
        requires
            self.wf(),
        ensures
            match r {
                Some(i) => i < self.keys.len() && self.keys@[i as int]@ == k@,
                None => !self@.dom().contains(k@),
            },
    {
        let mut i: usize = 0;
        while i < self.keys.len()
            invariant
                self.wf(),
                i <= self.keys.len(),
                forall|j: int| 0 <= j < i ==> self.keys@[j]@ != k@,
            decreases self.keys.len() - i,
        {
            if crate::text::str_eq(self.keys[i].as_str(), k) {
                return Some(i);
            }
            i = i + 1;
        }
        proof {
            self.lemma_entries();
        }
        None
    }

    /// The number of entries.
    pub fn len(&self) -> (n: usize)
        requires
            self.wf(),
        ensures
            n == self@.len(),
            n == self.len_spec(),
    {
        proof {
            self.lemma_finite();
        }
        self.keys.len()
    }

    /// Whether an entry has the key `k`.
    pub fn contains_key(&self, k: &str) -> (r: bool)
        requires
            self.wf(),
        ensures
            r == self@.dom().contains(k@),
    {
        proof {
            self.lemma_entries();
        }
        self.find(k).is_some()
    }

    proof fn lemma_set_value(&self, m2: ContextMap, i: int)
        requires
            self.wf(),
            0 <= i < self.keys.len(),
            m2.keys == self.keys,
            m2.values@ == self.values@.update(i, m2.values@[i]),
        ensures
            m2.wf(),
            m2@ == self@.insert(self.keys@[i]@, m2.values@[i]@),
    {
        self.lemma_entries();
        m2.lemma_entries();
        assert(m2@ =~= self@.insert(self.keys@[i]@, m2.values@[i]@)) by {
            assert forall|k: Seq<char>| #[trigger] m2@.dom().contains(k) implies self@.insert(
                self.keys@[i]@,
                m2.values@[i]@,
            ).dom().contains(k) by {
                let j = choose|j: int| m2.key_at(k, j);
                assert(self.keys@[j]@ == k);
            }
            assert forall|k: Seq<char>| #[trigger] self@.dom().contains(k) implies m2@.dom().contains(k) by {
                let j = choose|j: int| self.key_at(k, j);
                assert(m2.keys@[j]@ == k);
            }
            assert forall|k: Seq<char>| #[trigger] m2@.dom().contains(k) implies m2@[k] == self@.insert(
                self.keys@[i]@,
                m2.values@[i]@,
            )[k] by {
                let j = choose|j: int| m2.key_at(k, j);
                assert(m2@[m2.keys@[j]@] == m2.values@[j]@);
                if j != i {
                    assert(self@[self.keys@[j]@] == self.values@[j]@);
                }
            }
        }
    }

    proof fn lemma_pushed(&self, m2: ContextMap, k: String, v: Context)
        requires
            self.wf(),
            !self@.dom().contains(k@),
            m2.keys@ == self.keys@.push(k),
            m2.values@ == self.values@.push(v),
        ensures
            m2.wf(),
            m2@ == self@.insert(k@, v@),
    {
        self.lemma_entries();
        let n = self.keys.len() as int;
        assert(m2.wf()) by {
            assert forall|i: int, j: int|
                0 <= i < m2.keys.len() && 0 <= j < m2.keys.len() && i != j implies m2.keys@[i]@
                != m2.keys@[j]@ by {
                if i == n {
                    assert(self@.dom().contains(self.keys@[j]@));
                } else if j == n {
                    assert(self@.dom().contains(self.keys@[i]@));
                }
            }
        }
        m2.lemma_entries();
        assert(m2@ =~= self@.insert(k@, v@)) by {
            assert forall|q: Seq<char>| #[trigger] m2@.dom().contains(q) implies self@.insert(
                k@,
                v@,
            ).dom().contains(q) && m2@[q] == self@.insert(k@, v@)[q] by {
                let j = choose|j: int| m2.key_at(q, j);
                assert(m2@[m2.keys@[j]@] == m2.values@[j]@);
                if j < n {
                    assert(self@[self.keys@[j]@] == self.values@[j]@);
                }
            }
            assert forall|q: Seq<char>| #[trigger] self@.insert(k@, v@).dom().contains(q) implies m2@.dom().contains(q) by {
                if q != k@ {
                    let j = choose|j: int| self.key_at(q, j);
                    assert(m2.keys@[j]@ == q);
                } else {
                    assert(m2.keys@[n]@ == q);
                }
            }
        }
    }

    proof fn lemma_removed(&self, m2: ContextMap, i: int)
        requires
            self.wf(),
            0 <= i < self.keys.len(),
            m2.keys@ == self.keys@.remove(i),
            m2.values@ == self.values@.remove(i),
        ensures
            m2.wf(),
            m2@ == self@.remove(self.keys@[i]@),
    {
        self.lemma_entries();
        let k = self.keys@[i]@;
        assert(m2.wf()) by {
            assert forall|a: int, b: int|
                0 <= a < m2.keys.len() && 0 <= b < m2.keys.len() && a != b implies m2.keys@[a]@
                != m2.keys@[b]@ by {
                let a0 = if a < i { a } else { a + 1 };
                let b0 = if b < i { b } else { b + 1 };
                assert(m2.keys@[a] == self.keys@[a0]);
                assert(m2.keys@[b] == self.keys@[b0]);
            }
        }
        m2.lemma_entries();
        assert(m2@ =~= self@.remove(k)) by {
            assert forall|q: Seq<char>| #[trigger] m2@.dom().contains(q) implies self@.remove(
                k,
            ).dom().contains(q) && m2@[q] == self@.remove(k)[q] by {
                let j = choose|j: int| m2.key_at(q, j);
                let j0 = if j < i { j } else { j + 1 };
                assert(m2.keys@[j] == self.keys@[j0]);
                assert(m2.values@[j] == self.values@[j0]);
                assert(m2@[m2.keys@[j]@] == m2.values@[j]@);
                assert(self@[self.keys@[j0]@] == self.values@[j0]@);
            }
            assert forall|q: Seq<char>| #[trigger] self@.remove(k).dom().contains(q) implies m2@.dom().contains(q) by {
                let j0 = choose|j: int| self.key_at(q, j);
                assert(j0 != i);
                let j = if j0 < i { j0 } else { j0 - 1 };
                assert(m2.keys@[j] == self.keys@[j0]);
            }
        }
    }

    /// The context stored under `k`, for changing in place.
    pub fn get_mut(&mut self, k: &str) -> (r: Option<&mut Context>)
        requires
            old(self).wf(),
        ensures
            final(self).wf(),
            match r {
                Some(c) => old(self)@.dom().contains(k@) && c@ == old(self)@[k@] && final(self)@
                    == old(self)@.insert(k@, final(c)@),
                None => !old(self)@.dom().contains(k@) && final(self)@ == old(self)@,
            },
    {
        match self.find(k) {
            Some(i) => {
                proof {
                    self.lemma_entry(i as int);
                    assert forall|m2: ContextMap|
                        m2.keys == self.keys && m2.values@ == self.values@.update(
                            i as int,
                            m2.values@[i as int],
                        ) implies m2.wf() && #[trigger] m2@ == self@.insert(
                            self.keys@[i as int]@,
                            m2.values@[i as int]@,
                        ) by {
                        self.lemma_set_value(m2, i as int);
                    }
                }
                Some(&mut self.values[i])
            },
            None => None,
        }
    }

    /// Stores `v` under `k`, handing back the context it replaces, if any.
    pub fn insert(&mut self, k: String, v: Context) -> (r: Option<Context>)
        requires
            old(self).wf(),
        ensures
            final(self).wf(),
            final(self)@ == old(self)@.insert(k@, v@),
            match r {
                Some(c) => old(self)@.dom().contains(k@) && c@ == old(self)@[k@],
                None => !old(self)@.dom().contains(k@),
            },
    {
        match self.find(k.as_str()) {
            Some(i) => {
                let ghost before = *self;
                let mut replaced = v;
                std::mem::swap(&mut self.values[i], &mut replaced);
                proof {
                    before.lemma_entry(i as int);
                    before.lemma_set_value(*self, i as int);
                }
                Some(replaced)
            },
            None => {
                let ghost before = *self;
                self.keys.push(k);
                self.values.push(v);
                proof {
                    before.lemma_pushed(*self, k, v);
                }
                None
            },
        }
    }

    /// Takes out the entry under `k`, if any.
    pub fn remove(&mut self, k: &str) -> (r: Option<Context>)
        requires
            old(self).wf(),
        ensures
            final(self).wf(),
            final(self)@ == old(self)@.remove(k@),
            match r {
                Some(c) => old(self)@.dom().contains(k@) && c@ == old(self)@[k@],
                None => !old(self)@.dom().contains(k@),
            },
    {
        match self.find(k) {
            Some(i) => {
                let ghost before = *self;
                self.keys.remove(i);
                let c = self.values.remove(i);
                proof {
                    before.lemma_entry(i as int);
                    before.lemma_removed(*self, i as int);
                }
                Some(c)
            },
            None => {
                assert(self@.remove(k@) =~= self@);
                None
            },
        }
    }

    /// Takes out some entry, or nothing when the map is empty.
    pub fn pop_entry(&mut self) -> (r: Option<(String, Context)>)
        requires
            old(self).wf(),
        ensures
            final(self).wf(),
            match r {
                Some(e) => old(self)@.dom().contains(e.0@) && e.1@ == old(self)@[e.0@]
                    && final(self)@ == old(self)@.remove(e.0@),
                None => old(self)@.len() == 0 && final(self)@ == old(self)@,
            },
    {
        proof {
            self.lemma_finite();
        }
        if self.keys.len() == 0 {
            return None;
        }
        let ghost before = *self;
        let i = self.keys.len() - 1;
        let k = self.keys.remove(i);
        let c = self.values.remove(i);
        proof {
            before.lemma_entry(i as int);
            before.lemma_removed(*self, i as int);
        }
        Some((k, c))
    }

    /// The keys, each once, in no promised order.
    pub fn keys(&self) -> (r: Vec<&str>)
        requires
            self.wf(),
        ensures
            r@.len() == self@.len(),
            forall|i: int| 0 <= i < r@.len() ==> self@.dom().contains(#[trigger] r@[i]@),
            forall|k: Seq<char>| #[trigger]
                self@.dom().contains(k) ==> exists|i: int| 0 <= i < r@.len() && r@[i]@ == k,
            forall|i: int, j: int| 0 <= i < r@.len() && 0 <= j < r@.len() && i != j ==> r@[i]@ != r@[j]@,
    {
        proof {
            self.lemma_entries();
            self.lemma_finite();
        }
        let mut r: Vec<&str> = Vec::new();
        let mut i: usize = 0;
        while i < self.keys.len()
            invariant
                self.wf(),
                i <= self.keys.len(),
                r@.len() == i,
                forall|j: int| 0 <= j < i ==> (#[trigger] r@[j])@ == self.keys@[j]@,
            decreases self.keys.len() - i,
        {
            r.push(self.keys[i].as_str());
            i = i + 1;
        }
        proof {
            assert forall|k: Seq<char>| #[trigger]
                self@.dom().contains(k) implies exists|i: int| 0 <= i < r@.len() && r@[i]@ == k by {
                let j = choose|j: int| self.key_at(k, j);
                assert(r@[j]@ == k);
            }
            assert forall|i: int| 0 <= i < r@.len() implies self@.dom().contains(#[trigger] r@[i]@) by {
                assert(r@[i]@ == self.keys@[i]@);
            }
        }
        r
    }

    /// Whether the map's own invariant holds.
    pub fn is_well_formed(&self) -> (r: bool)
        ensures
            r == self.wf(),
    {
        if self.keys.len() != self.values.len() {
            return false;
        }
        let n = self.keys.len();
        let mut i: usize = 0;
        while i < n
            invariant
                n == self.keys.len(),
                self.keys.len() == self.values.len(),
                i <= n,
                forall|a: int, b: int| 0 <= a < i && 0 <= b < n && a != b ==> self.keys@[a]@ != self.keys@[b]@,
            decreases n - i,
        {
            let mut j: usize = 0;
            while j < n
                invariant
                    n == self.keys.len(),
                    i < n,
                    j <= n,
                    forall|b: int| 0 <= b < j && b != i ==> self.keys@[i as int]@ != self.keys@[b]@,
                decreases n - j,
            {
                if j != i && crate::text::str_eq(self.keys[i].as_str(), self.keys[j].as_str()) {
                    return false;
                }
                j = j + 1;
            }
            i = i + 1;
        }
        true
    }

    /// The context stored under `k`, if any.
    pub fn get(&self, k: &str) -> (r: Option<&Context>)
        requires
            self.wf(),
        ensures
            match r {
                Some(c) => self@.dom().contains(k@) && c@ == self@[k@],
                None => !self@.dom().contains(k@),
            },
    {
        match self.find(k) {
            Some(i) => {
                proof {
                    self.lemma_entry(i as int);
                }
                Some(&self.values[i])
            },
            None => None,
        }
    }
}


/// The name of the context that a new manager starts with.
pub open spec fn default_name() -> Seq<char> {
    "default"@
}

/// All contexts by name, and which one is active.
#[derive(Debug)]
pub struct ContextManager {
    pub contexts: ContextMap,
    pub active_context: String,
}

impl ContextManager {
    /// The manager's invariant: the map is well formed and the active name
    /// is one of its keys, so the map is never empty.
    pub open spec fn wf(&self) -> bool {
        &&& self.contexts.wf()
        &&& self.contexts@.dom().contains(self.active_context@)
    }

    /// Whether the manager's invariant holds.
    pub fn is_well_formed(&self) -> (r: bool)
        ensures
            r == self.wf(),
    {
        self.contexts.is_well_formed() && self.contexts.contains_key(self.active_context.as_str())
    }

    /// A manager with one empty context named "default", which is active.
    pub fn new() -> (m: ContextManager)
        ensures
            m.wf(),
            m.active_context@ == default_name(),
            m.contexts@ == map![default_name() => (default_name(), Seq::<Task>::empty())],
            m.contexts@.len() == 1,
    {
        let mut contexts = ContextMap::new();
        let name = String::from_str("default");
        let ctx = Context::new(String::from_str("default"));
        contexts.insert(name, ctx);
        let m = ContextManager { contexts, active_context: String::from_str("default") };
        assert(m.contexts@ =~= map![default_name() => (default_name(), Seq::<Task>::empty())]);
        proof {
            m.contexts.lemma_finite();
        }
        assert(m.contexts@.dom() =~= set![default_name()]);
        m
    }

    /// Adds an empty context named `name`; the active context stays.
    pub fn create_context(&mut self, name: String) -> (r: Result<(), AppError>)
        requires
            old(self).wf(),
        ensures
            final(self).wf(),
            final(self).active_context == old(self).active_context,
            old(self).contexts@.dom().contains(name@) ==> (r matches Err(
                AppError::ContextAlreadyExists(m),
            ) && m@ == name@ && final(self).contexts@ == old(self).contexts@),
            !old(self).contexts@.dom().contains(name@) ==> r is Ok && final(self).contexts@
                == old(self).contexts@.insert(name@, (name@, Seq::<Task>::empty())),
    {
        if self.contexts.contains_key(name.as_str()) {
            return Err(AppError::ContextAlreadyExists(name));
        }
        let ctx = Context::new(name.clone());
        self.contexts.insert(name, ctx);
        Ok(())
    }

    /// Makes `name` the active context.
    pub fn switch_context(&mut self, name: &str) -> (r: Result<(), AppError>)
        requires
            old(self).wf(),
        ensures
            final(self).wf(),
            final(self).contexts == old(self).contexts,
            old(self).contexts@.dom().contains(name@) ==> r is Ok && final(self).active_context@
                == name@,
            !old(self).contexts@.dom().contains(name@) ==> (r matches Err(
                AppError::ContextNotFound(m),
            ) && m@ == name@ && final(self).active_context == old(self).active_context),
    {
        if !self.contexts.contains_key(name) {
            return Err(AppError::ContextNotFound(name.to_owned()));
        }
        self.active_context = name.to_owned();
        Ok(())
    }

    /// Deletes the context `name`. It must exist, must not be the only one
    /// and must not be active; on failure nothing changes.
    pub fn delete_context(&mut self, name: &str) -> (r: Result<(), AppError>)
        requires
            old(self).wf(),
        ensures
            final(self).wf(),
            final(self).active_context == old(self).active_context,
            !old(self).contexts@.dom().contains(name@) ==> (r matches Err(
                AppError::ContextNotFound(m),
            ) && m@ == name@),
            old(self).contexts@.dom().contains(name@) && old(self).contexts@.len() <= 1 ==> r
                == Err::<(), AppError>(AppError::CannotDeleteLastContext),
            old(self).contexts@.dom().contains(name@) && old(self).contexts@.len() > 1
                && old(self).active_context@ == name@ ==> (r matches Err(
                AppError::ContextInUse(m),
            ) && m@ == name@),
            r is Err ==> final(self).contexts@ == old(self).contexts@,
            r is Ok <==> (old(self).contexts@.dom().contains(name@) && old(self).contexts@.len() > 1
                && old(self).active_context@ != name@),
            r is Ok ==> final(self).contexts@ == old(self).contexts@.remove(name@),
    {
        if !self.contexts.contains_key(name) {
            return Err(AppError::ContextNotFound(name.to_owned()));
        }
        if self.contexts.len() <= 1 {
            return Err(AppError::CannotDeleteLastContext);
        }
        if crate::text::str_eq(self.active_context.as_str(), name) {
            return Err(AppError::ContextInUse(name.to_owned()));
        }
        self.contexts.remove(name);
        Ok(())
    }

    /// The active context.
    pub fn active_context(&self) -> (c: &Context)
        requires
            self.wf(),
        ensures
            c@ == self.contexts@[self.active_context@],
    {
        self.contexts.get(self.active_context.as_str()).unwrap()
    }

    /// The active context, for changing in place; which context is active,
    /// and the other contexts, stay as they are.
    pub fn active_context_mut(&mut self) -> (c: &mut Context)
        requires
            old(self).wf(),
        ensures
            c@ == old(self).contexts@[old(self).active_context@],
            final(self).wf(),
            final(self).active_context == old(self).active_context,
            final(self).contexts@ == old(self).contexts@.insert(
                old(self).active_context@,
                final(c)@,
            ),
    {
        self.contexts.get_mut(self.active_context.as_str()).unwrap()
    }

    /// The names of all contexts, each once, in no promised order.
    pub fn list_contexts(&self) -> (r: Vec<&str>)
        requires
            self.wf(),
        ensures
            r@.len() == self.contexts@.len(),
            forall|i: int| 0 <= i < r@.len() ==> self.contexts@.dom().contains(#[trigger] r@[i]@),
            forall|k: Seq<char>| #[trigger]
                self.contexts@.dom().contains(k) ==> exists|i: int| 0 <= i < r@.len() && r@[i]@ == k,
            forall|i: int, j: int| 0 <= i < r@.len() && 0 <= j < r@.len() && i != j ==> r@[i]@ != r@[j]@,
    {
        self.contexts.keys()
    }
}

impl Default for ContextManager {
    /// The same as `ContextManager::new`.
    fn default() -> (m: ContextManager)
        ensures
            m.wf(),
            m.active_context@ == default_name(),
            m.contexts@ == map![default_name() => (default_name(), Seq::<Task>::empty())],
    {
        ContextManager::new()
    }
}

} // verus!
