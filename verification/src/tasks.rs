//! The tasks of a quest as one address sees them: each with the mark that
//! says whether the address has completed it, in the order of their
//! identifiers.

use vstd::prelude::*;
use crate::felt::Felt;
use crate::ledger::{Ledger, TaskKey};
use crate::quest::{lookup, QuestConfig, QuestDefinition};

verus! {

/// A task as it is described to users.
#[derive(Debug)]
pub struct TaskDocument {
    pub id: u32,
    pub name: String,
    pub href: String,
    pub cta: String,
    pub verify_endpoint: String,
    pub verify_endpoint_type: String,
    pub verify_redirect: Option<String>,
    pub desc: String,
}

/// A task together with whether one address has completed it.
#[derive(Debug)]
pub struct UserTask {
    pub id: u32,
    pub name: String,
    pub href: String,
    pub cta: String,
    pub verify_endpoint: String,
    pub verify_endpoint_type: String,
    pub verify_redirect: Option<String>,
    pub desc: String,
    pub completed: bool,
}

/// Why no tasks were listed.
#[derive(Clone, Copy, Debug, PartialEq, Eq, Structural)]
pub enum TasksError {
    /// No quest has the identifier.
    UnknownQuest,
    /// The ledger could not be read.
    StoreUnavailable,
    /// None of the quest's tasks is described.
    NoTasks,
}

impl TasksError {
    /// The words in which the error is told.
    pub open spec fn text(self) -> Seq<char> {
        match self {
            TasksError::UnknownQuest => "No quest found with this quest_id"@,
            TasksError::StoreUnavailable => "Error querying tasks"@,
            TasksError::NoTasks => "No tasks found for this quest_id"@,
        }
    }

    /// The words in which the error is told.
    pub fn message(&self) -> (words: &'static str)
        ensures
            words@ == self.text(),
    {
        match self {
            TasksError::UnknownQuest => "No quest found with this quest_id",
            TasksError::StoreUnavailable => "Error querying tasks",
            TasksError::NoTasks => "No tasks found for this quest_id",
        }
    }
}

/// The task with its mark.
pub open spec fn with_completion(task: TaskDocument, completed: bool) -> UserTask {
    UserTask {
        id: task.id,
        name: task.name,
        href: task.href,
        cta: task.cta,
        verify_endpoint: task.verify_endpoint,
        verify_endpoint_type: task.verify_endpoint_type,
        verify_redirect: task.verify_redirect,
        desc: task.desc,
        completed,
    }
}

/// Those of the tasks that the quest requires, in their order.
pub open spec fn selected(tasks: Seq<TaskDocument>, task_ids: Seq<u32>) -> Seq<TaskDocument> {
    tasks.filter(|task: TaskDocument| task_ids.contains(task.id))
}

/// Each task with the mark that the ledger's contents give it for the
/// address.
pub open spec fn marked(tasks: Seq<TaskDocument>, contents: Map<TaskKey, u64>, address: Seq<u8>) -> Seq<
    UserTask,
> {
    tasks.map_values(
        |task: TaskDocument| with_completion(task, contents.contains_key((address, task.id))),
    )
}

/// Where a task with the identifier goes in a list ordered by identifier:
/// behind every task whose identifier is not larger.
pub open spec fn slot(sorted: Seq<UserTask>, id: u32) -> int
    decreases sorted.len(),
{
    if sorted.len() == 0 {
        0
    } else if sorted.last().id <= id {
        sorted.len() as int
    } else {
        slot(sorted.drop_last(), id)
    }
}

/// The list with one more task, put in its place.
pub open spec fn place(sorted: Seq<UserTask>, task: UserTask) -> Seq<UserTask> {
    sorted.insert(slot(sorted, task.id), task)
}

/// The tasks in the order of their identifiers; tasks with one identifier
/// keep their order.
pub open spec fn sort_by_id(tasks: Seq<UserTask>) -> Seq<UserTask>
    decreases tasks.len(),
{
    if tasks.len() == 0 {
        Seq::empty()
    } else {
        place(sort_by_id(tasks.drop_last()), tasks.last())
    }
}

/// The identifiers do not decrease along the list.
pub open spec fn ordered_by_id(tasks: Seq<UserTask>) -> bool {
    forall|i: int, j: int| 0 <= i <= j < tasks.len() ==> tasks[i].id <= tasks[j].id
}

/// What an address is shown of a quest's tasks.
pub open spec fn listing(
    tasks: Seq<TaskDocument>,
    task_ids: Seq<u32>,
    contents: Map<TaskKey, u64>,
    address: Seq<u8>,
) -> Seq<UserTask> {
    sort_by_id(marked(selected(tasks, task_ids), contents, address))
}

/// What listing the tasks of a quest for an address returns.
pub open spec fn tasks_outcome(
    definitions: Seq<QuestDefinition>,
    available: bool,
    contents: Map<TaskKey, u64>,
    tasks: Seq<TaskDocument>,
    address: Seq<u8>,
    quest_id: u32,
) -> Result<Seq<UserTask>, TasksError> {
    match lookup(definitions, quest_id) {
        None => Err(TasksError::UnknownQuest),
        Some(definition) => {
            if !available {
                Err(TasksError::StoreUnavailable)
            } else if listing(tasks, definition.task_ids(), contents, address).len() == 0 {
                Err(TasksError::NoTasks)
            } else {
                Ok(listing(tasks, definition.task_ids(), contents, address))
            }
        },
    }
}

/// The plain value of what `user_tasks` returns.
pub open spec fn tasks_view(listed: Result<Vec<UserTask>, TasksError>) -> Result<
    Seq<UserTask>,
    TasksError,
> {
    match listed {
        Ok(tasks) => Ok(tasks@),
        Err(e) => Err(e),
    }
}

/// The slot lies in the list, everything from it on has a larger identifier,
/// and what stands just before it has not.
pub proof fn lemma_slot(sorted: Seq<UserTask>, id: u32)
    ensures
        0 <= slot(sorted, id) <= sorted.len(),
        forall|j: int| slot(sorted, id) <= j < sorted.len() ==> sorted[j].id > id,
        slot(sorted, id) > 0 ==> sorted[slot(sorted, id) - 1].id <= id,
    decreases sorted.len(),
{
    if sorted.len() > 0 && sorted.last().id > id {
        let front = sorted.drop_last();
        lemma_slot(front, id);
        assert forall|j: int| slot(sorted, id) <= j < sorted.len() implies sorted[j].id > id by {
            if j < front.len() {
                assert(front[j] == sorted[j]);
            }
        }
        if slot(sorted, id) > 0 {
            assert(front[slot(sorted, id) - 1] == sorted[slot(sorted, id) - 1]);
        }
    }
}

/// Putting a task in its place keeps an ordered list ordered.
pub proof fn lemma_place_keeps_order(sorted: Seq<UserTask>, task: UserTask)
    requires
        ordered_by_id(sorted),
    ensures
        ordered_by_id(place(sorted, task)),
{
    lemma_slot(sorted, task.id);
    let at = slot(sorted, task.id);
    let placed = place(sorted, task);
    assert forall|i: int, j: int| 0 <= i <= j < placed.len() implies placed[i].id
        <= placed[j].id by {
        if i < at {
            assert(placed[i] == sorted[i]);
            assert(sorted[i].id <= sorted[at - 1].id);
        } else if i > at {
            assert(placed[i] == sorted[i - 1]);
        }
        if j < at {
            assert(placed[j] == sorted[j]);
        } else if j > at {
            assert(placed[j] == sorted[j - 1]);
        }
    }
}

/// A sorted list is ordered by identifier and holds exactly the tasks that
/// were sorted, each as often as it was there.
pub proof fn lemma_sort_by_id(tasks: Seq<UserTask>)
    ensures
        ordered_by_id(sort_by_id(tasks)),
        sort_by_id(tasks).to_multiset() == tasks.to_multiset(),
        sort_by_id(tasks).len() == tasks.len(),
    decreases tasks.len(),
{
    broadcast use vstd::seq_lib::to_multiset_build, vstd::seq_lib::to_multiset_insert;

    if tasks.len() > 0 {
        let front = sort_by_id(tasks.drop_last());
        lemma_sort_by_id(tasks.drop_last());
        lemma_place_keeps_order(front, tasks.last());
        lemma_slot(front, tasks.last().id);
        assert(tasks =~= tasks.drop_last().push(tasks.last()));
        assert(tasks.to_multiset() =~= tasks.drop_last().to_multiset().insert(tasks.last()));
    } else {
        assert(tasks =~= Seq::<UserTask>::empty());
    }
}

/// Whether the identifier is among those of the list.
fn contains_id(ids: &Vec<u32>, id: u32) -> (found: bool)
    ensures
        found == ids@.contains(id),
{
    let mut i: usize = 0;
    while i < ids.len()
        invariant
            i <= ids@.len(),
            forall|j: int| 0 <= j < i ==> ids@[j] != id,
        decreases ids@.len() - i,
    {
        if ids[i] == id {
            return true;
        }
        i += 1;
    }
    false
}

/// Puts a task in its place in a list ordered by identifier.
fn insert_by_id(sorted: &mut Vec<UserTask>, task: UserTask)
    ensures
        final(sorted)@ == place(old(sorted)@, task),
{
    let mut at: usize = sorted.len();
    assert(sorted@.take(at as int) =~= sorted@);
    while at > 0 && sorted[at - 1].id > task.id
        invariant
            at <= sorted@.len(),
            slot(sorted@, task.id) == slot(sorted@.take(at as int), task.id),
            sorted@ == old(sorted)@,
        decreases at,
    {
        assert(sorted@.take(at as int).drop_last() =~= sorted@.take(at - 1));
        at -= 1;
    }
    sorted.insert(at, task);
}

/// The tasks of a quest with, on each, whether the address has completed
/// it. Of the described tasks those that the quest requires are listed, in
/// the order of their identifiers.
pub fn user_tasks(
    config: &QuestConfig,
    ledger: &Ledger,
    tasks: Vec<TaskDocument>,
    quest_id: u32,
    address: &Felt,
) -> (listed: Result<Vec<UserTask>, TasksError>)
    ensures
        tasks_view(listed) == tasks_outcome(
            config.definitions(),
            ledger.available(),
            ledger@,
            tasks@,
            address@,
            quest_id,
        ),
{
    let definition = match config.find(quest_id) {
        Some(definition) => definition,
        None => {
            return Err(TasksError::UnknownQuest);
        },
    };
    if !ledger.is_available() {
        return Err(TasksError::StoreUnavailable);
    }
    let task_ids = definition.required_tasks();
    let ghost all = tasks@;
    let mut listed: Vec<UserTask> = Vec::new();
    proof {
        reveal(Seq::filter);
        assert(all.take(0) =~= Seq::<TaskDocument>::empty());
    }
    for task in it: tasks
        invariant
            it.seq() == all,
            ledger.available(),
            listed@ == listing(all.take(it.index() as int), task_ids@, ledger@, address@),
    {
        let ghost done = all.take(it.index() as int);
        let ghost chosen = |task: TaskDocument| task_ids@.contains(task.id);
        proof {
            assert(all.take(it.index() + 1) =~= done.push(task));
            done.lemma_filter_push(task, chosen);
        }
        if contains_id(task_ids, task.id) {
            let completed = match ledger.has_completed(address, task.id) {
                Ok(completed) => completed,
                Err(_) => false,
            };
            let entry = UserTask {
                id: task.id,
                name: task.name,
                href: task.href,
                cta: task.cta,
                verify_endpoint: task.verify_endpoint,
                verify_endpoint_type: task.verify_endpoint_type,
                verify_redirect: task.verify_redirect,
                desc: task.desc,
                completed,
            };
            proof {
                let before = marked(selected(done, task_ids@), ledger@, address@);
                let after = marked(selected(done.push(task), task_ids@), ledger@, address@);
                assert(after =~= before.push(entry));
                assert(after.drop_last() =~= before);
            }
            insert_by_id(&mut listed, entry);
        }
    }
    proof {
        assert(all.take(all.len() as int) =~= all);
    }
    if listed.len() == 0 {
        return Err(TasksError::NoTasks);
    }
    Ok(listed)
}

} // verus!
