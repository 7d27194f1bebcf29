//! The scan-task catalogue: identifiers, states and their transitions.
use vstd::prelude::*;
use crate::engine::StatusSnapshot;
use crate::text::{all_digits, chars_of, decimal, decimal_string, digits_value, lemma_decimal_value};

verus! {

/// State of a scan task. Completed, Failed and Canceled are terminal.
#[derive(Debug, Clone, Copy, PartialEq, Eq, Structural)]
pub enum TaskState {
    Queued,
    Running,
    Completed,
    Failed,
    Canceled,
}

impl TaskState {
    pub open spec fn is_terminal(self) -> bool {
        self is Completed || self is Failed || self is Canceled
    }

    pub open spec fn name(self) -> Seq<char> {
        match self {
            TaskState::Queued => "queued"@,
            TaskState::Running => "running"@,
            TaskState::Completed => "completed"@,
            TaskState::Failed => "failed"@,
            TaskState::Canceled => "canceled"@,
        }
    }

    /// The wire name of the state.
    pub fn as_str(&self) -> (r: &'static str)
        ensures
            r@ == self.name(),
    {
        match self {
            TaskState::Queued => "queued",
            TaskState::Running => "running",
            TaskState::Completed => "completed",
            TaskState::Failed => "failed",
            TaskState::Canceled => "canceled",
        }
    }

    pub fn terminal(&self) -> (r: bool)
        ensures
            r == self.is_terminal(),
    {
        match self {
            TaskState::Queued | TaskState::Running => false,
            _ => true,
        }
    }
}

/// What the catalogue knows of a task.
#[derive(Debug, Clone)]
pub struct TaskInfo {
    pub path: String,
    pub min_size_bytes: u64,
    pub threads: usize,
    pub limit: Option<usize>,
    pub tag: Option<String>,
    /// registration time, seconds since the Unix epoch
    pub started_at: u64,
    /// time of the last change, seconds since the Unix epoch
    pub updated_at: u64,
    pub state: TaskState,
    /// whether a scan engine handle is attached to the task
    pub has_handle: bool,
}

pub open spec fn opt_view(o: Option<String>) -> Option<Seq<char>> {
    match o {
        Some(s) => Some(s@),
        None => None,
    }
}

/// `a` and `b` hold the same task data.
pub open spec fn same_info(a: TaskInfo, b: TaskInfo) -> bool {
    a.path@ == b.path@ && a.min_size_bytes == b.min_size_bytes && a.threads == b.threads && a.limit
        == b.limit && opt_view(a.tag) == opt_view(b.tag) && a.started_at == b.started_at
        && a.updated_at == b.updated_at && a.state == b.state && a.has_handle == b.has_handle
}

fn copy_opt(o: &Option<String>) -> (r: Option<String>)
    ensures
        opt_view(r) == opt_view(*o),
{
    match o {
        Some(s) => Some(s.clone()),
        None => None,
    }
}

/// A copy of `info`.
pub fn copy_info(info: &TaskInfo) -> (r: TaskInfo)
    ensures
        same_info(r, *info),
{
    TaskInfo {
        path: info.path.clone(),
        min_size_bytes: info.min_size_bytes,
        threads: info.threads,
        limit: info.limit,
        tag: copy_opt(&info.tag),
        started_at: info.started_at,
        updated_at: info.updated_at,
        state: info.state,
        has_handle: info.has_handle,
    }
}

/// A task and its number; its identifier is the number in decimal.
#[derive(Debug)]
pub struct TaskRecord {
    pub id: u64,
    pub info: TaskInfo,
}

/// The catalogue of tasks of one process.
#[derive(Debug)]
pub struct TaskManager {
    /// the tasks, in the order they were registered
    pub tasks: Vec<TaskRecord>,
    /// the number the next task will get
    pub next_id: u64,
}

/// Whether `s` is the identifier of a task numbered `n`.
pub open spec fn names(s: Seq<char>, n: u64) -> bool {
    decimal(n as nat) == s
}

proof fn lemma_decimal_injective(a: nat, b: nat)
    requires
        decimal(a) == decimal(b),
    ensures
        a == b,
{
    lemma_decimal_value(a);
    lemma_decimal_value(b);
}

/// The task number that the identifier `s` spells, if it spells one.
fn parse_task_id(s: &str) -> (r: Option<u64>)
    ensures
        match r {
            Some(n) => names(s@, n),
            None => forall|n: u64| !names(s@, n),
        },
{
    let v = chars_of(s);
    if v.len() == 0 || v.len() > 20 {
        proof {
            assert forall|n: u64| !names(s@, n) by {
                if names(s@, n) {
                    lemma_decimal_value(n as nat);
                    lemma_decimal_short(n as nat);
                }
            }
        }
        return None;
    }
    let mut acc: u128 = 0;
    let mut i: usize = 0;
    while i < v.len()
        invariant
            i <= v@.len() <= 20,
            v@ == s@,
            acc == digits_value(v@.take(i as int)),
            all_digits(v@.take(i as int)),
            acc < crate::size::pow10(i as nat),
        decreases v@.len() - i,
    {
        let c = v[i];
        if !('0' <= c && c <= '9') {
            proof {
                assert forall|n: u64| !names(s@, n) by {
                    if names(s@, n) {
                        lemma_decimal_value(n as nat);
                        assert(decimal(n as nat)[i as int] == c);
                    }
                }
            }
            return None;
        }
        proof {
            assert(v@.take(i + 1).drop_last() =~= v@.take(i as int));
            lemma_pow10_bound(i as nat);
        }
        acc = acc * 10 + (c as u32 - '0' as u32) as u128;
        i = i + 1;
    }
    assert(v@.take(v@.len() as int) =~= v@);
    if acc > u64::MAX as u128 {
        proof {
            assert forall|n: u64| !names(s@, n) by {
                if names(s@, n) {
                    lemma_decimal_value(n as nat);
                }
            }
        }
        return None;
    }
    let n = acc as u64;
    let back = decimal_string(n);
    if back.as_str().unicode_len() == v.len() && text_equal(&back, s) {
        Some(n)
    } else {
        proof {
            assert forall|m: u64| !names(s@, m) by {
                if names(s@, m) {
                    lemma_decimal_value(m as nat);
                    assert(m == n);
                }
            }
        }
        None
    }
}

proof fn lemma_pow10_twenty()
    ensures
        crate::size::pow10(20) == 100000000000000000000,
{
    reveal_with_fuel(crate::size::pow10, 21);
}

proof fn lemma_pow10_mono(a: nat, b: nat)
    requires
        a <= b,
    ensures
        crate::size::pow10(a) <= crate::size::pow10(b),
    decreases b,
{
    if a < b {
        lemma_pow10_mono(a, (b - 1) as nat);
    }
}

proof fn lemma_pow10_bound(i: nat)
    requires
        i < 20,
    ensures
        crate::size::pow10(i + 1) <= 100000000000000000000,
        crate::size::pow10(i + 1) == 10 * crate::size::pow10(i),
{
    lemma_pow10_mono(i + 1, 20);
    lemma_pow10_twenty();
}

proof fn lemma_decimal_short(n: nat)
    requires
        n <= u64::MAX,
    ensures
        decimal(n).len() <= 20,
{
    lemma_pow10_twenty();
    lemma_decimal_len(n, 20);
}

proof fn lemma_decimal_len(n: nat, k: nat)
    requires
        n < crate::size::pow10(k),
        k >= 1,
    ensures
        decimal(n).len() <= k,
    decreases n,
{
    if n >= 10 {
        assert(crate::size::pow10(1) == 10) by {
            reveal_with_fuel(crate::size::pow10, 2);
        }
        assert(k >= 2);
        let p = crate::size::pow10((k - 1) as nat);
        assert(crate::size::pow10(k) == 10 * p);
        assert(n / 10 < p) by (nonlinear_arith)
            requires n < 10 * p;
        lemma_decimal_len(n / 10, (k - 1) as nat);
    }
}

/// Whether `a` and `b` hold the same text.
pub(crate) fn text_equal(a: &String, b: &str) -> (r: bool)
    ensures
        r == (a@ == b@),
{
    let x = chars_of(a.as_str());
    let y = chars_of(b);
    if x.len() != y.len() {
        return false;
    }
    let mut i: usize = 0;
    while i < x.len()
        invariant
            x@ == a@,
            y@ == b@,
            x@.len() == y@.len(),
            i <= x@.len(),
            forall|j: int| 0 <= j < i ==> x@[j] == y@[j],
        decreases x@.len() - i,
    {
        if x[i] != y[i] {
            return false;
        }
        i = i + 1;
    }
    assert(x@ =~= y@);
    true
}

/// The state a task moves to when it is cancelled: queued and running tasks are
/// cancelled, terminal ones stay as they are.
pub open spec fn cancelled_state(s: TaskState) -> TaskState {
    if s.is_terminal() { s } else { TaskState::Canceled }
}

/// The state a status query records for a task in state `s` whose engine reports `done`
/// and, if it failed, an error: a running task whose walk has ended completes or fails.
pub open spec fn observed_state(s: TaskState, done: bool, failed: bool) -> TaskState {
    if s is Running && done {
        if failed { TaskState::Failed } else { TaskState::Completed }
    } else {
        s
    }
}

/// Cancelling a task that has completed or failed leaves its state as it is.
pub proof fn cancel_keeps_finished_state(s: TaskState)
    requires
        s is Completed || s is Failed,
    ensures
        cancelled_state(s) == s,
{
}

/// Lazily advances a task's state from an engine snapshot.
pub fn advance_state(state: TaskState, snapshot: &StatusSnapshot) -> (r: TaskState)
    ensures
        r == observed_state(state, snapshot.done, snapshot.error is Some),
{
    match state {
        TaskState::Running => {
            if snapshot.done {
                if snapshot.error.is_some() { TaskState::Failed } else { TaskState::Completed }
            } else {
                state
            }
        },
        _ => state,
    }
}

/// `entry` lists one of `tasks`: its identifier and a copy of its record.
pub open spec fn listed_from(entry: (String, TaskInfo), tasks: Seq<TaskRecord>) -> bool {
    exists|j: int| 0 <= j < tasks.len() && names(entry.0@, #[trigger] tasks[j].id) && same_info(entry.1, tasks[j].info)
}

impl TaskManager {
    /// Identifiers are increasing numbers below `next_id`.
    pub open spec fn wf(&self) -> bool {
        &&& self.next_id >= 1
        &&& forall|a: int, b: int| 0 <= a < b < self.tasks@.len() ==> self.tasks@[a].id < self.tasks@[b].id
        &&& forall|i: int| 0 <= i < self.tasks@.len() ==> (#[trigger] self.tasks@[i]).id < self.next_id
    }

    pub open spec fn records(&self) -> Seq<TaskRecord> {
        self.tasks@
    }

    pub open spec fn next_number(&self) -> u64 {
        self.next_id
    }

    /// Where the task with identifier `id` is kept.
    pub open spec fn index_of(&self, id: Seq<char>) -> Option<int> {
        if exists|j: int| 0 <= j < self.tasks@.len() && names(id, #[trigger] self.tasks@[j].id) {
            Some(choose|j: int| 0 <= j < self.tasks@.len() && names(id, #[trigger] self.tasks@[j].id))
        } else {
            None
        }
    }

    /// An empty catalogue; the first identifier is `"1"`.
    pub fn new() -> (r: TaskManager)
        ensures
            r.wf(),
            r.records().len() == 0,
            r.next_number() == 1,
    {
        TaskManager { tasks: Vec::new(), next_id: 1 }
    }

    /// Whether another task can be given an identifier.
    pub fn can_register(&self) -> (r: bool)
        ensures
            r == (self.next_id < u64::MAX),
    {
        self.next_id < u64::MAX
    }

    fn find_index(&self, task_id: &str) -> (r: Option<usize>)
        requires
            self.wf(),
        ensures
            r is Some <==> self.index_of(task_id@) is Some,
            r is Some ==> r->0 as int == self.index_of(task_id@)->0,
            r is Some ==> r->0 < self.tasks@.len() && names(task_id@, self.tasks@[r->0 as int].id),
    {
        let n = match parse_task_id(task_id) {
            Some(n) => n,
            None => {
                return None;
            },
        };
        let mut i: usize = 0;
        while i < self.tasks.len()
            invariant
                self.wf(),
                names(task_id@, n),
                i <= self.tasks@.len(),
                forall|j: int| 0 <= j < i ==> self.tasks@[j].id != n,
            decreases self.tasks@.len() - i,
        {
            if self.tasks[i].id == n {
                proof {
                    assert forall|j: int| 0 <= j < self.tasks@.len() && names(task_id@, #[trigger] self.tasks@[j].id)
                        implies j == i by {
                        lemma_decimal_injective(self.tasks@[j].id as nat, n as nat);
                    }
                }
                return Some(i);
            }
            i = i + 1;
        }
        proof {
            assert forall|j: int| 0 <= j < self.tasks@.len() implies !names(task_id@, #[trigger] self.tasks@[j].id) by {
                if names(task_id@, self.tasks@[j].id) {
                    lemma_decimal_injective(self.tasks@[j].id as nat, n as nat);
                }
            }
        }
        None
    }

    /// Records a new task with the given data, registered and updated at `now`, and returns
    /// its identifier: the next number, in decimal.
    pub fn register_task_with_handle(
        &mut self,
        path: String,
        min_size_bytes: u64,
        threads: usize,
        limit: Option<usize>,
        tag: Option<String>,
        state: TaskState,
        has_handle: bool,
        now: u64,
    ) -> (r: String)
        requires
            old(self).wf(),
            old(self).next_id < u64::MAX,
        ensures
            final(self).wf(),
            r@ == decimal(old(self).next_id as nat),
            final(self).next_id == old(self).next_id + 1,
            final(self).tasks@.len() == old(self).tasks@.len() + 1,
            final(self).tasks@.drop_last() == old(self).tasks@,
            final(self).tasks@.last().id == old(self).next_id,
            final(self).tasks@.last().info == (TaskInfo {
                path, min_size_bytes, threads, limit, tag, started_at: now, updated_at: now, state, has_handle,
            }),
    {
        let id = self.next_id;
        let info = TaskInfo {
            path, min_size_bytes, threads, limit, tag, started_at: now, updated_at: now, state, has_handle,
        };
        self.tasks.push(TaskRecord { id, info });
        self.next_id = id + 1;
        assert(self.tasks@.drop_last() =~= old(self).tasks@);
        decimal_string(id)
    }

    /// `register_task_with_handle` for a task with no engine handle.
    pub fn register_task(
        &mut self,
        path: String,
        min_size_bytes: u64,
        threads: usize,
        limit: Option<usize>,
        tag: Option<String>,
        state: TaskState,
        now: u64,
    ) -> (r: String)
        requires
            old(self).wf(),
            old(self).next_id < u64::MAX,
        ensures
            final(self).wf(),
            r@ == decimal(old(self).next_id as nat),
            final(self).next_id == old(self).next_id + 1,
            final(self).tasks@.len() == old(self).tasks@.len() + 1,
            final(self).tasks@.drop_last() == old(self).tasks@,
            final(self).tasks@.last().id == old(self).next_id,
            final(self).tasks@.last().info == (TaskInfo {
                path, min_size_bytes, threads, limit, tag, started_at: now, updated_at: now, state, has_handle: false,
            }),
    {
        self.register_task_with_handle(path, min_size_bytes, threads, limit, tag, state, false, now)
    }

    /// A copy of what is known of the task `task_id`.
    pub fn get_task_info(&self, task_id: &str) -> (r: Option<TaskInfo>)
        requires
            self.wf(),
        ensures
            match self.index_of(task_id@) {
                Some(j) => r is Some && same_info(r->0, self.tasks@[j].info),
                None => r is None,
            },
    {
        match self.find_index(task_id) {
            Some(j) => Some(copy_info(&self.tasks[j].info)),
            None => None,
        }
    }

    /// Sets the state of task `j` to `state` and its update time to `now`; returns the
    /// previous state and a copy of the new record.
    fn set_state(&mut self, j: usize, state: TaskState, now: u64) -> (r: (TaskState, TaskInfo))
        requires
            old(self).wf(),
            j < old(self).tasks@.len(),
        ensures
            final(self).wf(),
            final(self).next_id == old(self).next_id,
            final(self).tasks@.len() == old(self).tasks@.len(),
            forall|i: int| 0 <= i < final(self).tasks@.len() && i != j ==> final(self).tasks@[i] == old(self).tasks@[i],
            final(self).tasks@[j as int].id == old(self).tasks@[j as int].id,
            same_info(final(self).tasks@[j as int].info, TaskInfo { state, updated_at: now, ..old(self).tasks@[j as int].info }),
            r.0 == old(self).tasks@[j as int].info.state,
            same_info(r.1, final(self).tasks@[j as int].info),
    {
        let previous = self.tasks[j].info.state;
        let id = self.tasks[j].id;
        let mut info = copy_info(&self.tasks[j].info);
        info.state = state;
        info.updated_at = now;
        let snapshot = copy_info(&info);
        self.tasks.set(j, TaskRecord { id, info });
        (previous, snapshot)
    }

    /// Replaces the state of task `task_id` and stamps it with `now`; returns the previous
    /// state and the updated record, or `None` for an unknown task.
    pub fn update_task_state(&mut self, task_id: &str, new_state: TaskState, now: u64) -> (r: Option<(TaskState, TaskInfo)>)
        requires
            old(self).wf(),
        ensures
            final(self).wf(),
            final(self).next_id == old(self).next_id,
            final(self).tasks@.len() == old(self).tasks@.len(),
            match old(self).index_of(task_id@) {
                None => r is None && final(self).tasks@ == old(self).tasks@,
                Some(j) => {
                    let out = r->0;
                    &&& r is Some
                    &&& out.0 == old(self).tasks@[j].info.state
                    &&& same_info(out.1, final(self).tasks@[j].info)
                    &&& final(self).tasks@[j].id == old(self).tasks@[j].id
                    &&& same_info(final(self).tasks@[j].info, TaskInfo { state: new_state, updated_at: now, ..old(self).tasks@[j].info })
                    &&& forall|i: int| 0 <= i < final(self).tasks@.len() && i != j ==> final(self).tasks@[i] == old(self).tasks@[i]
                },
            },
    {
        match self.find_index(task_id) {
            Some(j) => Some(self.set_state(j, new_state, now)),
            None => None,
        }
    }

    /// Cancels task `task_id`: a queued or running task becomes canceled, a terminal one
    /// keeps its state; its update time becomes `now` either way. Returns the previous
    /// state, the updated record and whether the task's scan must be told to stop (it was
    /// active and has an engine handle); `None` for an unknown task.
    pub fn cancel_task(&mut self, task_id: &str, now: u64) -> (r: Option<(TaskState, TaskInfo, bool)>)
        requires
            old(self).wf(),
        ensures
            final(self).wf(),
            final(self).next_id == old(self).next_id,
            final(self).tasks@.len() == old(self).tasks@.len(),
            match old(self).index_of(task_id@) {
                None => r is None && final(self).tasks@ == old(self).tasks@,
                Some(j) => {
                    let before = old(self).tasks@[j].info;
                    let out = r->0;
                    &&& r is Some
                    &&& out.0 == before.state
                    &&& out.1.state == cancelled_state(before.state)
                    &&& same_info(out.1, final(self).tasks@[j].info)
                    &&& out.2 == (!before.state.is_terminal() && before.has_handle)
                    &&& final(self).tasks@[j].id == old(self).tasks@[j].id
                    &&& same_info(final(self).tasks@[j].info, TaskInfo { state: cancelled_state(before.state), updated_at: now, ..before })
                    &&& forall|i: int| 0 <= i < final(self).tasks@.len() && i != j ==> final(self).tasks@[i] == old(self).tasks@[i]
                },
            },
    {
        match self.find_index(task_id) {
            Some(j) => {
                let previous = self.tasks[j].info.state;
                let has_handle = self.tasks[j].info.has_handle;
                let active = !previous.terminal();
                let next = if active { TaskState::Canceled } else { previous };
                let (prev, info) = self.set_state(j, next, now);
                Some((prev, info, active && has_handle))
            },
            None => None,
        }
    }

    /// The queued and running tasks with their identifiers, oldest first; terminal tasks
    /// are left out.
    pub fn list_non_terminated_tasks(&self) -> (r: Vec<(String, TaskInfo)>)
        requires
            self.wf(),
        ensures
            forall|i: int| 0 <= i < r@.len() ==> !(#[trigger] r@[i]).1.state.is_terminal(),
            forall|i: int| 0 <= i < r@.len() ==> listed_from(#[trigger] r@[i], self.tasks@),
            forall|j: int| 0 <= j < self.tasks@.len() && !(#[trigger] self.tasks@[j]).info.state.is_terminal()
                ==> exists|i: int| 0 <= i < r@.len() && names(r@[i].0@, self.tasks@[j].id),
    {
        let mut r: Vec<(String, TaskInfo)> = Vec::new();
        let mut k: usize = 0;
        while k < self.tasks.len()
            invariant
                k <= self.tasks@.len(),
                forall|i: int| 0 <= i < r@.len() ==> !(#[trigger] r@[i]).1.state.is_terminal(),
                forall|i: int| 0 <= i < r@.len() ==> listed_from(#[trigger] r@[i], self.tasks@),
                forall|j: int| 0 <= j < k && !(#[trigger] self.tasks@[j]).info.state.is_terminal()
                    ==> exists|i: int| 0 <= i < r@.len() && names(r@[i].0@, self.tasks@[j].id),
            decreases self.tasks@.len() - k,
        {
            let rec = &self.tasks[k];
            if !rec.info.state.terminal() {
                let id = decimal_string(rec.id);
                let info = copy_info(&rec.info);
                let ghost r0 = r@;
                r.push((id, info));
                proof {
                    assert(names(r@[r0.len() as int].0@, self.tasks@[k as int].id));
                    assert forall|i: int| 0 <= i < r@.len() implies listed_from(#[trigger] r@[i], self.tasks@) by {
                        if i < r0.len() {
                            assert(r@[i] == r0[i]);
                        } else {
                            assert(names(r@[i].0@, self.tasks@[k as int].id) && same_info(r@[i].1, self.tasks@[k as int].info));
                        }
                    }
                    assert forall|j: int| 0 <= j < k + 1 && !(#[trigger] self.tasks@[j]).info.state.is_terminal()
                        implies exists|i: int| 0 <= i < r@.len() && names(r@[i].0@, self.tasks@[j].id) by {
                        if j < k {
                            let i = choose|i: int| 0 <= i < r0.len() && names(r0[i].0@, self.tasks@[j].id);
                            assert(r@[i] == r0[i]);
                        } else {
                            assert(names(r@[r0.len() as int].0@, self.tasks@[j].id));
                        }
                    }
                }
            }
            k = k + 1;
        }
        r
    }
}

} // verus!
