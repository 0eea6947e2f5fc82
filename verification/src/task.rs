//! Work queue: the tasks agents create, claim and complete.
//!
//! A task is a unit of work waiting to be picked up, with an optional owner
//! and a dependency graph (`blocked_by` / `blocks`).
use vstd::prelude::*;
use crate::text::{
    copy_opt_string, copy_strings, decimal, opt_string_view, str_eq, strings_contain, strings_view,
    u64_to_string,
};

verus! {

/// Status of a task in the work queue.
#[derive(Debug, Clone, Copy, PartialEq, Eq, Structural)]
pub enum TaskStatus {
    Pending,
    InProgress,
    Completed,
    Deleted,
}

/// The snake_case name of a status.
pub open spec fn status_name(s: TaskStatus) -> Seq<char> {
    match s {
        TaskStatus::Pending => "pending"@,
        TaskStatus::InProgress => "in_progress"@,
        TaskStatus::Completed => "completed"@,
        TaskStatus::Deleted => "deleted"@,
    }
}

impl TaskStatus {
    /// The snake_case name (`pending`, `in_progress`, `completed`, `deleted`).
    pub fn to_string(&self) -> (r: String)
        ensures
            r@ == status_name(*self),
    {
        match self {
            TaskStatus::Pending => "pending".to_owned(),
            TaskStatus::InProgress => "in_progress".to_owned(),
            TaskStatus::Completed => "completed".to_owned(),
            TaskStatus::Deleted => "deleted".to_owned(),
        }
    }
}

/// A single unit of work with optional dependency tracking.
#[derive(Debug)]
pub struct Task {
    pub id: String,
    pub subject: String,
    pub description: String,
    pub status: TaskStatus,
    /// The agent that owns the task, if any.
    pub owner: Option<String>,
    /// Tasks that must complete before this one can start.
    pub blocked_by: Vec<String>,
    /// Tasks that cannot start until this one completes.
    pub blocks: Vec<String>,
}

/// What a task holds, as plain values.
pub struct TaskView {
    pub id: Seq<char>,
    pub subject: Seq<char>,
    pub description: Seq<char>,
    pub status: TaskStatus,
    pub owner: Option<Seq<char>>,
    pub blocked_by: Seq<Seq<char>>,
    pub blocks: Seq<Seq<char>>,
}

impl View for Task {
    type V = TaskView;

    open spec fn view(&self) -> TaskView {
        TaskView {
            id: self.id@,
            subject: self.subject@,
            description: self.description@,
            status: self.status,
            owner: opt_string_view(self.owner),
            blocked_by: strings_view(self.blocked_by@),
            blocks: strings_view(self.blocks@),
        }
    }
}

/// The views of a sequence of tasks.
pub open spec fn tasks_view(s: Seq<Task>) -> Seq<TaskView> {
    s.map_values(|t: Task| t@)
}

impl Task {
    /// An independent copy of the task.
    pub fn duplicate(&self) -> (r: Task)
        ensures
            r@ == self@,
    {
        let blocked_by = copy_strings(self.blocked_by.as_slice());
        let blocks = copy_strings(self.blocks.as_slice());
        Task {
            id: self.id.clone(),
            subject: self.subject.clone(),
            description: self.description.clone(),
            status: self.status,
            owner: copy_opt_string(&self.owner),
            blocked_by,
            blocks,
        }
    }
}

impl Clone for Task {
    fn clone(&self) -> (r: Task)
        ensures
            r@ == self@,
    {
        self.duplicate()
    }
}

/// Whether `t` is the non-deleted task named `id`.
pub open spec fn is_live(t: TaskView, id: Seq<char>) -> bool {
    t.id == id && t.status != TaskStatus::Deleted
}

/// The first position at or after `i` that holds the non-deleted task
/// named `id`, or `-1` when there is none.
pub open spec fn live_from(s: Seq<TaskView>, id: Seq<char>, i: int) -> int
    decreases s.len() - i,
{
    if i < 0 || i >= s.len() {
        -1
    } else if is_live(s[i], id) {
        i
    } else {
        live_from(s, id, i + 1)
    }
}

/// The position of the non-deleted task named `id`, or `-1`.
pub open spec fn live_index(s: Seq<TaskView>, id: Seq<char>) -> int {
    live_from(s, id, 0)
}

/// The first position at or after `i` that holds a task named `id`
/// (deleted or not), or `-1`.
pub open spec fn named_from(s: Seq<TaskView>, id: Seq<char>, i: int) -> int
    decreases s.len() - i,
{
    if i < 0 || i >= s.len() {
        -1
    } else if s[i].id == id {
        i
    } else {
        named_from(s, id, i + 1)
    }
}

/// `live_from` lands on a matching task inside the sequence, and no earlier
/// position from `i` on matches.
pub proof fn lemma_live_from(s: Seq<TaskView>, id: Seq<char>, i: int)
    requires
        0 <= i,
    ensures
        -1 <= live_from(s, id, i) < s.len(),
        live_from(s, id, i) >= 0 ==> i <= live_from(s, id, i) && is_live(s[live_from(s, id, i)], id),
        live_from(s, id, i) >= 0 ==> forall|k: int| i <= k < live_from(s, id, i) ==> !is_live(#[trigger] s[k], id),
        live_from(s, id, i) < 0 ==> forall|k: int| i <= k < s.len() ==> !is_live(#[trigger] s[k], id),
    decreases s.len() - i,
{
    if i < s.len() && !is_live(s[i], id) {
        lemma_live_from(s, id, i + 1);
    }
}

/// `named_from` lands on a task of that name inside the sequence, and no
/// earlier position from `i` on has that name.
pub proof fn lemma_named_from(s: Seq<TaskView>, id: Seq<char>, i: int)
    requires
        0 <= i,
    ensures
        -1 <= named_from(s, id, i) < s.len(),
        named_from(s, id, i) >= 0 ==> i <= named_from(s, id, i) && s[named_from(s, id, i)].id == id,
        named_from(s, id, i) >= 0 ==> forall|k: int| i <= k < named_from(s, id, i) ==> (#[trigger] s[k]).id != id,
        named_from(s, id, i) < 0 ==> forall|k: int| i <= k < s.len() ==> (#[trigger] s[k]).id != id,
    decreases s.len() - i,
{
    if i < s.len() && s[i].id != id {
        lemma_named_from(s, id, i + 1);
    }
}

/// Whether the tasks a task waits on are all done: each blocker is either
/// not a live task or is completed.
pub open spec fn blocker_done(s: Seq<TaskView>, dep: Seq<char>) -> bool {
    let i = live_index(s, dep);
    i < 0 || s[i].status == TaskStatus::Completed
}

/// Whether `t` can be claimed in the list `s`: pending, unowned, and every
/// blocker done.
pub open spec fn is_available(s: Seq<TaskView>, t: TaskView) -> bool {
    &&& t.status == TaskStatus::Pending
    &&& t.owner is None
    &&& forall|k: int| 0 <= k < t.blocked_by.len() ==> blocker_done(s, #[trigger] t.blocked_by[k])
}

/// The test for a task that is not deleted.
pub open spec fn not_deleted() -> spec_fn(TaskView) -> bool {
    |t: TaskView| t.status != TaskStatus::Deleted
}

/// The test for a task available in `s`.
pub open spec fn available_in(s: Seq<TaskView>) -> spec_fn(TaskView) -> bool {
    |t: TaskView| is_available(s, t)
}

/// The non-deleted tasks of `s`, in order.
pub open spec fn visible(s: Seq<TaskView>) -> Seq<TaskView> {
    s.filter(not_deleted())
}

/// The tasks of `s` that can be claimed, in order.
pub open spec fn available(s: Seq<TaskView>) -> Seq<TaskView> {
    s.filter(available_in(s))
}

/// Whether some task named `id` can be claimed.
pub open spec fn claimable(s: Seq<TaskView>, id: Seq<char>) -> bool {
    exists|k: int| 0 <= k < s.len() && (#[trigger] s[k]).id == id && is_available(s, s[k])
}

/// The list after the live task named `id` is claimed by `owner`.
pub open spec fn claimed(s: Seq<TaskView>, id: Seq<char>, owner: Seq<char>) -> Seq<TaskView> {
    let i = live_index(s, id);
    s.update(i, TaskView { owner: Some(owner), status: TaskStatus::InProgress, ..s[i] })
}

/// The list after the first task named `id` is marked deleted.
pub open spec fn deleted(s: Seq<TaskView>, id: Seq<char>) -> Seq<TaskView> {
    let i = named_from(s, id, 0);
    if i < 0 {
        s
    } else {
        s.update(i, TaskView { status: TaskStatus::Deleted, ..s[i] })
    }
}

/// The list after recording that `task_id` is blocked by `blocker_id`:
/// the live task `task_id` gains `blocker_id` among its blockers, and the
/// live task `blocker_id`, if any, gains `task_id` among the tasks it
/// blocks, neither twice.
pub open spec fn linked(s: Seq<TaskView>, task_id: Seq<char>, blocker_id: Seq<char>) -> Seq<TaskView> {
    let ti = live_index(s, task_id);
    if ti < 0 {
        s
    } else {
        let t = s[ti];
        let s1 = if t.blocked_by.contains(blocker_id) {
            s
        } else {
            s.update(ti, TaskView { blocked_by: t.blocked_by.push(blocker_id), ..t })
        };
        let bi = live_index(s1, blocker_id);
        if bi >= 0 && !s1[bi].blocks.contains(task_id) {
            s1.update(bi, TaskView { blocks: s1[bi].blocks.push(task_id), ..s1[bi] })
        } else {
            s1
        }
    }
}

/// `linked` applied for each blocker of `deps` in turn.
pub open spec fn linked_blocked_by(s: Seq<TaskView>, task_id: Seq<char>, deps: Seq<Seq<char>>) -> Seq<TaskView>
    decreases deps.len(),
{
    if deps.len() == 0 {
        s
    } else {
        linked(linked_blocked_by(s, task_id, deps.drop_last()), task_id, deps.last())
    }
}

/// `linked` applied for each task of `blocked` that `task_id` blocks, in turn.
pub open spec fn linked_blocks(s: Seq<TaskView>, task_id: Seq<char>, blocked: Seq<Seq<char>>) -> Seq<TaskView>
    decreases blocked.len(),
{
    if blocked.len() == 0 {
        s
    } else {
        linked(linked_blocks(s, task_id, blocked.drop_last()), blocked.last(), task_id)
    }
}

/// The views of an optional list of strings, empty when absent.
pub open spec fn opt_strings_view(o: Option<Vec<String>>) -> Seq<Seq<char>> {
    match o {
        Some(v) => strings_view(v@),
        None => Seq::empty(),
    }
}

/// The views of a sequence of task references.
pub open spec fn ref_tasks_view(s: Seq<&Task>) -> Seq<TaskView> {
    s.map_values(|t: &Task| t@)
}

/// The list after the fields of the live task named `id` are replaced by
/// those given (`None` leaves a field as it was).
pub open spec fn edited(
    s: Seq<TaskView>,
    id: Seq<char>,
    status: Option<TaskStatus>,
    subject: Option<Seq<char>>,
    description: Option<Seq<char>>,
    owner: Option<Seq<char>>,
) -> Seq<TaskView> {
    let i = live_index(s, id);
    let t = s[i];
    s.update(
        i,
        TaskView {
            status: match status {
                Some(st) => st,
                None => t.status,
            },
            subject: match subject {
                Some(x) => x,
                None => t.subject,
            },
            description: match description {
                Some(x) => x,
                None => t.description,
            },
            owner: if owner is Some {
                owner
            } else {
                t.owner
            },
            ..t
        },
    )
}

/// Replacing the first live task named `id` by another live task of the
/// same name leaves it the first.
pub proof fn lemma_live_index_update(s: Seq<TaskView>, id: Seq<char>, t: TaskView)
    requires
        live_index(s, id) >= 0,
        is_live(t, id),
    ensures
        live_index(s.update(live_index(s, id), t), id) == live_index(s, id),
{
    let i = live_index(s, id);
    lemma_live_from(s, id, 0);
    let s2 = s.update(i, t);
    assert forall|k: int| 0 <= k < i implies !is_live(#[trigger] s[k], id) && s2[k] == s[k] by {}
    lemma_live_prefix(s, s2, id, i, 0);
}

/// Where two lists agree before `i`, hold no live `id` there, and the second
/// holds a live `id` at `i`, the search from `j <= i` lands on `i`.
proof fn lemma_live_prefix(s: Seq<TaskView>, s2: Seq<TaskView>, id: Seq<char>, i: int, j: int)
    requires
        0 <= j <= i < s2.len(),
        s.len() == s2.len(),
        is_live(s2[i], id),
        forall|k: int| 0 <= k < i ==> !is_live(#[trigger] s[k], id) && s2[k] == s[k],
    ensures
        live_from(s2, id, j) == i,
    decreases i - j,
{
    if j < i {
        assert(s2[j] == s[j]);
        lemma_live_prefix(s, s2, id, i, j + 1);
    }
}

/// Work queue with auto-incrementing IDs and a dependency graph.
#[derive(Debug)]
pub struct TaskList {
    tasks: Vec<Task>,
    next_id: u64,
}

impl TaskList {
    /// The tasks, in creation order, deleted ones included.
    pub closed spec fn task_seq(&self) -> Seq<TaskView> {
        tasks_view(self.tasks@)
    }

    /// The number the next created task will be given.
    pub closed spec fn next_number(&self) -> u64 {
        self.next_id
    }

    /// An empty list whose first task will be numbered 1.
    pub fn new() -> (r: Self)
        ensures
            r.task_seq() == Seq::<TaskView>::empty(),
            r.next_number() == 1,
    {
        TaskList { tasks: Vec::new(), next_id: 1 }
    }

    /// Create a new pending task with the next number as its ID. Returns the
    /// assigned ID.
    pub fn create(&mut self, subject: String, description: String) -> (id: String)
        requires
            old(self).next_number() < u64::MAX,
        ensures
            id@ == decimal(old(self).next_number() as nat),
            final(self).next_number() == old(self).next_number() + 1,
            final(self).task_seq() == old(self).task_seq().push(
                TaskView {
                    id: id@,
                    subject: subject@,
                    description: description@,
                    status: TaskStatus::Pending,
                    owner: None,
                    blocked_by: Seq::empty(),
                    blocks: Seq::empty(),
                },
            ),
    {
        let id = u64_to_string(self.next_id);
        self.next_id = self.next_id + 1;
        let task = Task {
            id: id.clone(),
            subject,
            description,
            status: TaskStatus::Pending,
            owner: None,
            blocked_by: Vec::new(),
            blocks: Vec::new(),
        };
        proof {
            assert(strings_view(task.blocked_by@) =~= Seq::<Seq<char>>::empty());
            assert(strings_view(task.blocks@) =~= Seq::<Seq<char>>::empty());
        }
        self.tasks.push(task);
        proof {
            assert(tasks_view(self.tasks@) =~= tasks_view(old(self).tasks@).push(task@));
        }
        id
    }

    /// Position of the non-deleted task named `id`.
    fn find_live(&self, id: &str) -> (r: Option<usize>)
        ensures
            match r {
                Some(i) => i as int == live_index(self.task_seq(), id@)
                    && (i as int) < self.task_seq().len(),
                None => live_index(self.task_seq(), id@) == -1,
            },
    {
        let ghost s = self.task_seq();
        let mut i: usize = 0;
        while i < self.tasks.len()
            invariant
                i <= self.tasks.len(),
                s == self.task_seq(),
                s.len() == self.tasks.len(),
                live_from(s, id@, 0) == live_from(s, id@, i as int),
            decreases self.tasks.len() - i,
        {
            let t = &self.tasks[i];
            assert(s[i as int] == t@);
            if t.status != TaskStatus::Deleted && str_eq(t.id.as_str(), id) {
                return Some(i);
            }
            i += 1;
        }
        None
    }

    /// Position of the first task named `id`, deleted or not.
    fn find_named(&self, id: &str) -> (r: Option<usize>)
        ensures
            match r {
                Some(i) => i as int == named_from(self.task_seq(), id@, 0)
                    && (i as int) < self.task_seq().len(),
                None => named_from(self.task_seq(), id@, 0) == -1,
            },
    {
        let ghost s = self.task_seq();
        let mut i: usize = 0;
        while i < self.tasks.len()
            invariant
                i <= self.tasks.len(),
                s == self.task_seq(),
                s.len() == self.tasks.len(),
                named_from(s, id@, 0) == named_from(s, id@, i as int),
            decreases self.tasks.len() - i,
        {
            let t = &self.tasks[i];
            assert(s[i as int] == t@);
            if str_eq(t.id.as_str(), id) {
                return Some(i);
            }
            i += 1;
        }
        None
    }

    /// Get a task by ID, excluding deleted ones.
    pub fn get(&self, id: &str) -> (r: Option<&Task>)
        ensures
            match r {
                Some(t) => live_index(self.task_seq(), id@) >= 0
                    && t@ == self.task_seq()[live_index(self.task_seq(), id@)],
                None => live_index(self.task_seq(), id@) == -1,
            },
    {
        match self.find_live(id) {
            Some(i) => Some(&self.tasks[i]),
            None => None,
        }
    }

    /// Get a mutable reference to a task by ID, excluding deleted ones.
    pub fn get_mut(&mut self, id: &str) -> (r: Option<&mut Task>)
        ensures
            final(self).next_number() == old(self).next_number(),
            match r {
                Some(t) => {
                    let i = live_index(old(self).task_seq(), id@);
                    &&& 0 <= i < old(self).task_seq().len()
                    &&& t@ == old(self).task_seq()[i]
                    &&& final(self).task_seq() == old(self).task_seq().update(i, final(t)@)
                },
                None => live_index(old(self).task_seq(), id@) == -1 && final(self).task_seq()
                    == old(self).task_seq(),
            },
    {
        match self.find_live(id) {
            Some(i) => {
                let r = &mut self.tasks[i];
                Some(r)
            },
            None => None,
        }
    }

    /// List all non-deleted tasks.
    pub fn list(&self) -> (r: Vec<&Task>)
        ensures
            ref_tasks_view(r@) == visible(self.task_seq()),
    {
        let ghost s = self.task_seq();
        let mut r: Vec<&Task> = Vec::new();
        let mut i: usize = 0;
        while i < self.tasks.len()
            invariant
                i <= self.tasks.len(),
                s == self.task_seq(),
                s.len() == self.tasks.len(),
                ref_tasks_view(r@) == s.take(i as int).filter(not_deleted()),
            decreases self.tasks.len() - i,
        {
            let t = &self.tasks[i];
            proof {
                assert(s[i as int] == t@);
                assert(s.take(i + 1) =~= s.take(i as int).push(s[i as int]));
                s.take(i as int).lemma_filter_push(s[i as int], not_deleted());
            }
            if t.status != TaskStatus::Deleted {
                r.push(t);
                proof {
                    assert(ref_tasks_view(r@) =~= ref_tasks_view(r@.drop_last()).push(t@));
                }
            }
            i += 1;
        }
        proof {
            assert(s.take(i as int) =~= s);
        }
        r
    }

    /// Whether every blocker `dep` of a task is done.
    fn blocker_is_done(&self, dep: &str) -> (r: bool)
        ensures
            r == blocker_done(self.task_seq(), dep@),
    {
        match self.find_live(dep) {
            Some(i) => self.tasks[i].status == TaskStatus::Completed,
            None => true,
        }
    }

    /// Whether `t` can be claimed in this list.
    fn can_claim(&self, t: &Task) -> (r: bool)
        ensures
            r == is_available(self.task_seq(), t@),
    {
        if t.status != TaskStatus::Pending || t.owner.is_some() {
            return false;
        }
        let ghost deps = t@.blocked_by;
        let mut k: usize = 0;
        while k < t.blocked_by.len()
            invariant
                k <= t.blocked_by.len(),
                deps == t@.blocked_by,
                deps.len() == t.blocked_by.len(),
                forall|j: int| 0 <= j < k ==> blocker_done(self.task_seq(), #[trigger] deps[j]),
            decreases t.blocked_by.len() - k,
        {
            assert(deps[k as int] == t.blocked_by@[k as int]@);
            if !self.blocker_is_done(t.blocked_by[k].as_str()) {
                return false;
            }
            k += 1;
        }
        true
    }

    /// List tasks available for claiming: pending, unowned, and with every
    /// blocker completed.
    pub fn available_tasks(&self) -> (r: Vec<&Task>)
        ensures
            ref_tasks_view(r@) == available(self.task_seq()),
    {
        let ghost s = self.task_seq();
        let mut r: Vec<&Task> = Vec::new();
        let mut i: usize = 0;
        while i < self.tasks.len()
            invariant
                i <= self.tasks.len(),
                s == self.task_seq(),
                s.len() == self.tasks.len(),
                ref_tasks_view(r@) == s.take(i as int).filter(available_in(s)),
            decreases self.tasks.len() - i,
        {
            let t = &self.tasks[i];
            proof {
                assert(s[i as int] == t@);
                assert(s.take(i + 1) =~= s.take(i as int).push(s[i as int]));
                s.take(i as int).lemma_filter_push(s[i as int], available_in(s));
            }
            if self.can_claim(t) {
                r.push(t);
                proof {
                    assert(ref_tasks_view(r@) =~= ref_tasks_view(r@.drop_last()).push(t@));
                }
            }
            i += 1;
        }
        proof {
            assert(s.take(i as int) =~= s);
        }
        r
    }

    /// Whether some task named `id` is pending, unowned and unblocked.
    fn is_claimable(&self, id: &str) -> (r: bool)
        ensures
            r == claimable(self.task_seq(), id@),
    {
        let ghost s = self.task_seq();
        let mut i: usize = 0;
        while i < self.tasks.len()
            invariant
                i <= self.tasks.len(),
                s == self.task_seq(),
                s.len() == self.tasks.len(),
                forall|k: int| 0 <= k < i ==> !((#[trigger] s[k]).id == id@ && is_available(s, s[k])),
            decreases self.tasks.len() - i,
        {
            let t = &self.tasks[i];
            assert(s[i as int] == t@);
            if str_eq(t.id.as_str(), id) && self.can_claim(t) {
                return true;
            }
            i += 1;
        }
        false
    }

    /// Claim `id` for `owner`, moving it to `InProgress`.
    ///
    /// Fails when the task is missing, already owned, not pending, or still
    /// blocked.
    pub fn claim(&mut self, id: &str, owner: &str) -> (r: bool)
        ensures
            r == claimable(old(self).task_seq(), id@),
            final(self).next_number() == old(self).next_number(),
            r ==> final(self).task_seq() == claimed(old(self).task_seq(), id@, owner@),
            !r ==> final(self).task_seq() == old(self).task_seq(),
    {
        if !self.is_claimable(id) {
            return false;
        }
        let ghost s = self.task_seq();
        let i = match self.find_live(id) {
            Some(i) => i,
            None => {
                proof {
                    let k = choose|k: int| 0 <= k < s.len() && (#[trigger] s[k]).id == id@ && is_available(s, s[k]);
                    lemma_live_from(s, id@, 0);
                    assert(is_live(s[k], id@));
                }
                return false;
            },
        };
        let ghost t0 = self.tasks@[i as int];
        self.tasks[i].owner = Some(owner.to_owned());
        self.tasks[i].status = TaskStatus::InProgress;
        proof {
            assert(self.tasks@[i as int]@ =~= TaskView { owner: Some(owner@), status: TaskStatus::InProgress, ..t0@ });
            assert(tasks_view(self.tasks@) =~= claimed(s, id@, owner@));
        }
        true
    }

    /// Mark the first task named `id` as deleted.
    pub fn delete(&mut self, id: &str) -> (r: bool)
        ensures
            r == (named_from(old(self).task_seq(), id@, 0) >= 0),
            final(self).next_number() == old(self).next_number(),
            final(self).task_seq() == deleted(old(self).task_seq(), id@),
    {
        let ghost s = self.task_seq();
        match self.find_named(id) {
            Some(i) => {
                let ghost t0 = self.tasks@[i as int];
                self.tasks[i].status = TaskStatus::Deleted;
                proof {
                    assert(self.tasks@[i as int]@ =~= TaskView { status: TaskStatus::Deleted, ..t0@ });
                    assert(tasks_view(self.tasks@) =~= deleted(s, id@));
                }
                true
            },
            None => false,
        }
    }

    /// Record that `task_id` is blocked by `blocker_id`, keeping both sides
    /// of the edge. Returns `false` if `task_id` does not exist.
    pub fn add_blocked_by(&mut self, task_id: &str, blocker_id: &str) -> (r: bool)
        ensures
            r == (live_index(old(self).task_seq(), task_id@) >= 0),
            final(self).next_number() == old(self).next_number(),
            final(self).task_seq() == linked(old(self).task_seq(), task_id@, blocker_id@),
    {
        let ghost s = self.task_seq();
        let ti = match self.find_live(task_id) {
            Some(ti) => ti,
            None => return false,
        };
        let ghost t0 = self.tasks@[ti as int];
        if !strings_contain(self.tasks[ti].blocked_by.as_slice(), blocker_id) {
            self.tasks[ti].blocked_by.push(blocker_id.to_owned());
            proof {
                assert(strings_view(self.tasks@[ti as int].blocked_by@) =~= strings_view(t0.blocked_by@).push(blocker_id@));
                assert(self.tasks@[ti as int]@ =~= TaskView { blocked_by: t0@.blocked_by.push(blocker_id@), ..t0@ });
            }
        }
        proof {
            assert(tasks_view(self.tasks@) =~= (if t0@.blocked_by.contains(blocker_id@) {
                s
            } else {
                s.update(ti as int, TaskView { blocked_by: t0@.blocked_by.push(blocker_id@), ..t0@ })
            }));
        }
        let ghost s1 = self.task_seq();
        match self.find_live(blocker_id) {
            Some(bi) => {
                let ghost b0 = self.tasks@[bi as int];
                if !strings_contain(self.tasks[bi].blocks.as_slice(), task_id) {
                    self.tasks[bi].blocks.push(task_id.to_owned());
                    proof {
                        assert(strings_view(self.tasks@[bi as int].blocks@) =~= strings_view(b0.blocks@).push(task_id@));
                        assert(self.tasks@[bi as int]@ =~= TaskView { blocks: b0@.blocks.push(task_id@), ..b0@ });
                        assert(tasks_view(self.tasks@) =~= s1.update(bi as int, TaskView { blocks: s1[bi as int].blocks.push(task_id@), ..s1[bi as int] }));
                    }
                }
            },
            None => {},
        }
        true
    }

    /// Record that `task_id` blocks `blocked_id`, keeping both sides of the
    /// edge. Returns `false` if `blocked_id` does not exist.
    pub fn add_blocks(&mut self, task_id: &str, blocked_id: &str) -> (r: bool)
        ensures
            r == (live_index(old(self).task_seq(), blocked_id@) >= 0),
            final(self).next_number() == old(self).next_number(),
            final(self).task_seq() == linked(old(self).task_seq(), blocked_id@, task_id@),
    {
        self.add_blocked_by(blocked_id, task_id)
    }

    /// Update a task's fields. `None` leaves a field unchanged. Passing
    /// `TaskStatus::Deleted` as `status` deletes the task. Returns `true` if
    /// the task was found.
    pub fn update(
        &mut self,
        id: &str,
        status: Option<TaskStatus>,
        subject: Option<String>,
        description: Option<String>,
        owner: Option<String>,
        add_blocked_by: Option<Vec<String>>,
        add_blocks: Option<Vec<String>>,
    ) -> (r: bool)
        ensures
            final(self).next_number() == old(self).next_number(),
            status == Some(TaskStatus::Deleted) ==> {
                &&& r == (named_from(old(self).task_seq(), id@, 0) >= 0)
                &&& final(self).task_seq() == deleted(old(self).task_seq(), id@)
            },
            status != Some(TaskStatus::Deleted) ==> r == (live_index(old(self).task_seq(), id@) >= 0),
            status != Some(TaskStatus::Deleted) && !r ==> final(self).task_seq() == old(self).task_seq(),
            status != Some(TaskStatus::Deleted) && r ==> final(self).task_seq() == linked_blocks(
                linked_blocked_by(
                    edited(
                        old(self).task_seq(),
                        id@,
                        status,
                        opt_string_view(subject),
                        opt_string_view(description),
                        opt_string_view(owner),
                    ),
                    id@,
                    opt_strings_view(add_blocked_by),
                ),
                id@,
                opt_strings_view(add_blocks),
            ),
    {
        match status {
            Some(TaskStatus::Deleted) => {
                return self.delete(id);
            },
            _ => {},
        }
        let ghost s = self.task_seq();
        let i = match self.find_live(id) {
            Some(i) => i,
            None => return false,
        };
        let ghost t0 = self.tasks@[i as int];
        match status {
            Some(st) => {
                self.tasks[i].status = st;
            },
            None => {},
        }
        match subject {
            Some(x) => {
                self.tasks[i].subject = x;
            },
            None => {},
        }
        match description {
            Some(x) => {
                self.tasks[i].description = x;
            },
            None => {},
        }
        if owner.is_some() {
            self.tasks[i].owner = owner;
        }
        proof {
            assert(tasks_view(self.tasks@) =~= edited(
                s,
                id@,
                status,
                opt_string_view(subject),
                opt_string_view(description),
                opt_string_view(owner),
            ));
        }
        let ghost s1 = self.task_seq();
        match add_blocked_by {
            Some(deps) => {
                let ghost dv = strings_view(deps@);
                let mut k: usize = 0;
                while k < deps.len()
                    invariant
                        k <= deps.len(),
                        dv == strings_view(deps@),
                        self.next_id == old(self).next_id,
                        self.task_seq() == linked_blocked_by(s1, id@, dv.take(k as int)),
                    decreases deps.len() - k,
                {
                    proof {
                        assert(dv.take(k + 1).drop_last() =~= dv.take(k as int));
                    }
                    self.add_blocked_by(id, deps[k].as_str());
                    k += 1;
                }
                proof {
                    assert(dv.take(k as int) =~= dv);
                }
            },
            None => {},
        }
        let ghost s2 = self.task_seq();
        match add_blocks {
            Some(blocked) => {
                let ghost bv = strings_view(blocked@);
                let mut k: usize = 0;
                while k < blocked.len()
                    invariant
                        k <= blocked.len(),
                        bv == strings_view(blocked@),
                        self.next_id == old(self).next_id,
                        self.task_seq() == linked_blocks(s2, id@, bv.take(k as int)),
                    decreases blocked.len() - k,
                {
                    proof {
                        assert(bv.take(k + 1).drop_last() =~= bv.take(k as int));
                    }
                    self.add_blocks(id, blocked[k].as_str());
                    k += 1;
                }
                proof {
                    assert(bv.take(k as int) =~= bv);
                }
            },
            None => {},
        }
        true
    }

    /// Claim the first available task for `owner`, returning it.
    pub fn claim_next(&mut self, owner: &str) -> (r: Option<Task>)
        ensures
            final(self).next_number() == old(self).next_number(),
            available(old(self).task_seq()).len() == 0 ==> r is None && final(self).task_seq()
                == old(self).task_seq(),
            available(old(self).task_seq()).len() > 0 ==> {
                let s = old(self).task_seq();
                let id = available(s)[0].id;
                &&& final(self).task_seq() == claimed(s, id, owner@)
                &&& r is Some
                &&& r.unwrap()@ == claimed(s, id, owner@)[live_index(s, id)]
            },
    {
        let ghost s = self.task_seq();
        let first_id = {
            let avail = self.available_tasks();
            if avail.len() == 0 {
                return None;
            }
            proof {
                assert(ref_tasks_view(avail@)[0] == avail@[0]@);
            }
            avail[0].id.clone()
        };
        proof {
            let a = available(s);
            s.lemma_filter_pred(available_in(s), 0);
            s.lemma_filter_contains_rev(available_in(s), a[0]);
            let k = choose|k: int| 0 <= k < s.len() && s[k] == a[0];
            assert(s[k].id == first_id@ && is_available(s, s[k]));
            assert(claimable(s, first_id@));
        }
        if !self.claim(first_id.as_str(), owner) {
            return None;
        }
        proof {
            let a = available(s);
            let k = choose|k: int| 0 <= k < s.len() && (#[trigger] s[k]).id == first_id@ && is_available(s, s[k]);
            lemma_live_from(s, first_id@, 0);
            assert(is_live(s[k], first_id@));
            let li = live_index(s, first_id@);
            lemma_live_index_update(s, first_id@, TaskView { owner: Some(owner@), status: TaskStatus::InProgress, ..s[li] });
        }
        match self.get(first_id.as_str()) {
            Some(t) => Some(t.duplicate()),
            None => None,
        }
    }
}


impl Default for TaskList {
    fn default() -> (r: Self)
        ensures
            r.task_seq() == Seq::<TaskView>::empty(),
            r.next_number() == 1,
    {
        TaskList::new()
    }
}


/// No two tasks of the list share an ID.
pub open spec fn unique_ids(s: Seq<TaskView>) -> bool {
    forall|i: int, j: int| 0 <= i < j < s.len() ==> (#[trigger] s[i]).id != (#[trigger] s[j]).id
}

/// Law: a task can only be claimed once. Once `id` has been claimed in a
/// list whose IDs are distinct, no second claim of `id` succeeds.
pub proof fn law_claim_is_exclusive(s: Seq<TaskView>, id: Seq<char>, first: Seq<char>)
    requires
        unique_ids(s),
        claimable(s, id),
    ensures
        !claimable(claimed(s, id, first), id),
{
    let k = choose|k: int| 0 <= k < s.len() && (#[trigger] s[k]).id == id && is_available(s, s[k]);
    lemma_live_from(s, id, 0);
    assert(is_live(s[k], id));
    let li = live_index(s, id);
    let s2 = claimed(s, id, first);
    if claimable(s2, id) {
        let k2 = choose|k2: int| 0 <= k2 < s2.len() && (#[trigger] s2[k2]).id == id && is_available(s2, s2[k2]);
        if k2 != li {
            assert(s2[k2] == s[k2]);
            if k2 < li {
                assert(s[k2].id != s[li].id);
            } else {
                assert(s[li].id != s[k2].id);
            }
        }
    }
}

/// Law: a deleted task is gone. After `delete(id)` in a list whose IDs are
/// distinct, no live task is named `id`.
pub proof fn law_deleted_task_is_gone(s: Seq<TaskView>, id: Seq<char>)
    requires
        unique_ids(s),
    ensures
        live_index(deleted(s, id), id) == -1,
{
    let s2 = deleted(s, id);
    let i = named_from(s, id, 0);
    lemma_named_from(s, id, 0);
    lemma_live_from(s2, id, 0);
    let r = live_index(s2, id);
    if r >= 0 {
        if i < 0 {
            assert(s2[r] == s[r]);
        } else if r != i {
            assert(s2[r] == s[r]);
            if r < i {
                assert(s[r].id != s[i].id);
            } else {
                assert(s[i].id != s[r].id);
            }
        }
    }
}

} // verus!
