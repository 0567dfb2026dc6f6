//! Tasks: each owner's ordered list of tasks.
//!
//! A task collection is always born empty. Identifiers are sequential and
//! start at zero: a new task takes the length of its owner's collection
//! before the append. The creation time is handed in by the caller, who
//! reads the clock once for each append.

use crate::error::StoreError;
use crate::store::{views, Record, Store};
use crate::text::{decimal, field, push_field, push_number_field, push_tabs, tabs};
use vstd::prelude::*;

verus! {

/// One task of one owner.
#[derive(Debug, PartialEq, Eq)]
pub struct Task {
    pub id: u64,
    pub text: String,
    pub category_id: u64,
    pub timestamp: u64,
}

/// What a [`Task`] stands for.
pub ghost struct TaskView {
    pub id: nat,
    pub text: Seq<char>,
    pub category_id: nat,
    pub timestamp: nat,
}

impl View for Task {
    type V = TaskView;

    open spec fn view(&self) -> TaskView {
        TaskView {
            id: self.id as nat,
            text: self.text@,
            category_id: self.category_id as nat,
            timestamp: self.timestamp as nat,
        }
    }
}

impl Clone for Task {
    fn clone(&self) -> (copy: Self)
        ensures
            copy@ == self@,
    {
        Task {
            id: self.id,
            text: self.text.clone(),
            category_id: self.category_id,
            timestamp: self.timestamp,
        }
    }
}

impl Record for Task {
    fn duplicate(&self) -> (copy: Self) {
        self.clone()
    }
}

/// The tasks that `owner` sees in a store whose contents are `m`: the
/// owner's collection, or nothing where there is none.
pub open spec fn tasks_of(m: Map<Seq<char>, Seq<TaskView>>, owner: Seq<char>) -> Seq<TaskView> {
    if m.dom().contains(owner) {
        m[owner]
    } else {
        Seq::empty()
    }
}

/// The task that `add_task` builds for `owner`.
pub open spec fn next_task(
    m: Map<Seq<char>, Seq<TaskView>>,
    owner: Seq<char>,
    text: Seq<char>,
    category_id: nat,
    timestamp: nat,
) -> TaskView {
    TaskView { id: tasks_of(m, owner).len(), text, category_id, timestamp }
}

/// Every owner's tasks.
pub struct Tasks {
    values: Store<Task>,
}

impl View for Tasks {
    type V = Map<Seq<char>, Seq<TaskView>>;

    closed spec fn view(&self) -> Map<Seq<char>, Seq<TaskView>> {
        self.values@
    }
}

impl Tasks {
    #[verifier::type_invariant]
    spec fn born_empty(self) -> bool {
        self.values.seed() is None
    }

    /// A store without collections.
    pub fn new() -> (store: Self)
        ensures
            store@ == Map::<Seq<char>, Seq<TaskView>>::empty(),
    {
        Tasks { values: Store::new(None) }
    }

    /// Deletes the whole collection of `owner`. Where the owner has none,
    /// nothing changes.
    pub fn reset(&mut self, owner: &str)
        ensures
            final(self)@ == old(self)@.remove(owner@),
    {
        proof {
            use_type_invariant(&*self);
        }
        let mut values = Store::new(None);
        std::mem::swap(&mut self.values, &mut values);
        values.remove(owner);
        self.values = values;
    }

    /// The tasks of `owner`, in insertion order; none where the owner has
    /// no collection. The store is left as it is.
    pub fn get_tasks(&self, owner: &str) -> (tasks: Vec<Task>)
        ensures
            views(tasks@) == tasks_of(self@, owner@),
            tasks@.len() == tasks_of(self@, owner@).len(),
    {
        proof {
            use_type_invariant(self);
        }
        self.values.peek(owner)
    }

    /// How many tasks `owner` has.
    pub fn count(&self, owner: &str) -> (n: usize)
        ensures
            n == tasks_of(self@, owner@).len(),
    {
        proof {
            use_type_invariant(self);
        }
        self.values.count(owner)
    }

    /// A task with the given fields.
    pub fn generate_task_fields(id: u64, text: String, category_id: u64, timestamp: u64) -> (task:
        Task)
        ensures
            task@ == (TaskView {
                id: id as nat,
                text: text@,
                category_id: category_id as nat,
                timestamp: timestamp as nat,
            }),
    {
        Task { id, text, category_id, timestamp }
    }

    /// Appends a task with the given text, category and creation time to
    /// the collection of `owner`, creating the collection first where there
    /// is none, and returns a copy of the new task.
    pub fn add_task(
        &mut self,
        owner: &str,
        text: String,
        category_id: u64,
        timestamp: u64,
    ) -> (task: Task)
        ensures
            task@ == next_task(
                old(self)@,
                owner@,
                text@,
                category_id as nat,
                timestamp as nat,
            ),
            final(self)@ == old(self)@.insert(owner@, tasks_of(old(self)@, owner@).push(task@)),
    {
        proof {
            use_type_invariant(&*self);
        }
        let mut values = Store::new(None);
        std::mem::swap(&mut self.values, &mut values);
        let n = values.count(owner);
        let task = Self::generate_task_fields(n as u64, text, category_id, timestamp);
        let copy = task.clone();
        values.append(owner, task);
        self.values = values;
        copy
    }

    /// Appends a task as `add_task` does, for a caller whose clock may
    /// fail: without a creation time nothing is appended and the store is
    /// left as it was.
    pub fn try_add_task(
        &mut self,
        owner: &str,
        text: String,
        category_id: u64,
        now: Option<u64>,
    ) -> (outcome: Result<Task, StoreError>)
        ensures
            now is None ==> outcome == Err::<Task, StoreError>(StoreError::TimeSourceFailure)
                && final(self)@ == old(self)@,
            now matches Some(timestamp) ==> outcome matches Ok(task) && task@ == next_task(
                old(self)@,
                owner@,
                text@,
                category_id as nat,
                timestamp as nat,
            ) && final(self)@ == old(self)@.insert(
                owner@,
                tasks_of(old(self)@, owner@).push(task@),
            ),
    {
        match now {
            Some(timestamp) => Ok(self.add_task(owner, text, category_id, timestamp)),
            None => Err(StoreError::TimeSourceFailure),
        }
    }

    /// Appends a task whose identifier the caller has drawn, such as a
    /// random token, in place of the sequential one. Identifiers are then
    /// as unique as the caller makes them.
    pub fn add_task_with_id(
        &mut self,
        owner: &str,
        id: u64,
        text: String,
        category_id: u64,
        timestamp: u64,
    ) -> (task: Task)
        ensures
            task@ == (TaskView {
                id: id as nat,
                text: text@,
                category_id: category_id as nat,
                timestamp: timestamp as nat,
            }),
            final(self)@ == old(self)@.insert(owner@, tasks_of(old(self)@, owner@).push(task@)),
    {
        proof {
            use_type_invariant(&*self);
        }
        let mut values = Store::new(None);
        std::mem::swap(&mut self.values, &mut values);
        let task = Self::generate_task_fields(id, text, category_id, timestamp);
        let copy = task.clone();
        values.append(owner, task);
        self.values = values;
        copy
    }

    /// The collection stored for `owner`, if there is one.
    pub fn get(&self, owner: &str) -> (found: Option<Vec<Task>>)
        ensures
            found is Some <==> self@.dom().contains(owner@),
            found matches Some(tasks) ==> views(tasks@) == self@[owner@] && tasks@.len()
                == self@[owner@].len(),
    {
        self.values.get(owner)
    }

    /// Stores `tasks` as the whole collection of `owner`.
    pub fn insert(&mut self, owner: &str, tasks: Vec<Task>)
        ensures
            final(self)@ == old(self)@.insert(owner@, views(tasks@)),
    {
        proof {
            use_type_invariant(&*self);
        }
        let mut values = Store::new(None);
        std::mem::swap(&mut self.values, &mut values);
        values.insert(owner, tasks);
        self.values = values;
    }
}

/// The text for one task: its fields, one per line, within braces.
pub open spec fn task_block(task: TaskView) -> Seq<char> {
    "{\n"@ + field("id"@, decimal(task.id)) + field("text"@, task.text) + field(
        "category_id"@,
        decimal(task.category_id),
    ) + field("timestamp"@, decimal(task.timestamp)) + "}"@
}

/// The texts of `tasks`, one after the other.
pub open spec fn task_blocks(tasks: Seq<TaskView>) -> Seq<char>
    decreases tasks.len(),
{
    if tasks.len() == 0 {
        Seq::empty()
    } else {
        task_blocks(tasks.drop_last()) + task_block(tasks.last())
    }
}

/// The readable text of a list of tasks: a line break, four tabs for each
/// task, a line break, then the tasks within square brackets and a closing
/// line break.
pub open spec fn tasks_text(tasks: Seq<TaskView>) -> Seq<char> {
    "\n"@ + tabs(4 * tasks.len()) + "\n["@ + task_blocks(tasks) + "]\n"@
}

/// Renders `tasks` as readable text.
pub fn tasks_format_output(tasks: &Vec<Task>) -> (output: String)
    ensures
        output@ == tasks_text(views(tasks@)),
{
    let ghost all = views(tasks@);
    let mut output = "\n".to_owned();
    let mut i: usize = 0;
    while i < tasks.len()
        invariant
            i <= tasks@.len(),
            output@ == "\n"@ + tabs(4 * i as nat),
        decreases tasks@.len() - i,
    {
        push_tabs(&mut output, 4);
        i += 1;
        assert(output@ =~= "\n"@ + tabs(4 * i as nat));
    }
    output.append("\n[");
    let ghost head = output@;
    let mut i: usize = 0;
    while i < tasks.len()
        invariant
            i <= tasks@.len(),
            all == views(tasks@),
            output@ == head + task_blocks(all.take(i as int)),
        decreases tasks@.len() - i,
    {
        let ghost before = output@;
        let task = &tasks[i];
        output.append("{\n");
        push_number_field(&mut output, "id", task.id);
        push_field(&mut output, "text", task.text.as_str());
        push_number_field(&mut output, "category_id", task.category_id);
        push_number_field(&mut output, "timestamp", task.timestamp);
        output.append("}");
        i += 1;
        proof {
            assert(all.take(i as int).drop_last() =~= all.take(i - 1));
            assert(all.take(i as int).last() == task@);
            assert(output@ =~= before + task_block(task@));
            assert(output@ =~= head + task_blocks(all.take(i as int)));
        }
    }
    output.append("]\n");
    proof {
        assert(all.take(tasks@.len() as int) =~= all);
        assert(output@ =~= tasks_text(all));
    }
    output
}

} // verus!
