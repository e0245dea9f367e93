//! The task list: an ordered sequence of tasks, each addressed by its
//! one-based position in the sequence.

use crate::text::{
    ascii_lower, ascii_upper, contains, contains_text, decimal, decimal_text, fold_case, folded,
    lemma_folded_ignores_ascii_case, occurs_at,
};
use vstd::prelude::*;

verus! {

/// One unit of work.
pub struct Task {
    pub description: String,
    pub completed: bool,
    pub group: Option<String>,
}

/// What a task is, as plain values.
pub struct TaskView {
    pub description: Seq<char>,
    pub completed: bool,
    pub group: Option<Seq<char>>,
}

impl View for Task {
    type V = TaskView;

    open spec fn view(&self) -> TaskView {
        TaskView {
            description: self.description@,
            completed: self.completed,
            group: self.group.deep_view(),
        }
    }
}

/// Tasks in insertion order. The task at index `i` has the identifier
/// `i + 1`; nothing else identifies it, so removing a task renumbers the
/// tasks behind it.
pub struct TodoList {
    pub tasks: Vec<Task>,
}

impl View for TodoList {
    type V = Seq<TaskView>;

    open spec fn view(&self) -> Seq<TaskView> {
        self.tasks@.map_values(|t: Task| t@)
    }
}

/// `id` names a task of `tasks`.
pub open spec fn valid_id(tasks: Seq<TaskView>, id: int) -> bool {
    1 <= id <= tasks.len()
}

/// The text of the error for an identifier that names no task.
pub open spec fn not_found(id: nat) -> Seq<char> {
    "Task "@ + decimal(id) + " does not exist"@
}

/// `tasks` with a new, open task at the end.
pub open spec fn with_task(
    tasks: Seq<TaskView>,
    description: Seq<char>,
    group: Option<Seq<char>>,
) -> Seq<TaskView> {
    tasks.push(TaskView { description, completed: false, group })
}

/// `tasks` after toggling task `id`: unchanged where `id` names no task.
pub open spec fn toggled(tasks: Seq<TaskView>, id: int) -> Seq<TaskView> {
    if valid_id(tasks, id) {
        tasks.update(id - 1, TaskView { completed: !tasks[id - 1].completed, ..tasks[id - 1] })
    } else {
        tasks
    }
}

/// `tasks` after removing task `id`: unchanged where `id` names no task.
pub open spec fn without(tasks: Seq<TaskView>, id: int) -> Seq<TaskView> {
    if valid_id(tasks, id) {
        tasks.remove(id - 1)
    } else {
        tasks
    }
}

/// `tasks` after giving task `id` a new description: unchanged where `id`
/// names no task.
pub open spec fn edited(tasks: Seq<TaskView>, id: int, description: Seq<char>) -> Seq<TaskView> {
    if valid_id(tasks, id) {
        tasks.update(id - 1, TaskView { description, ..tasks[id - 1] })
    } else {
        tasks
    }
}

/// The tasks of `tasks` that are not completed, in their order.
pub open spec fn pending(tasks: Seq<TaskView>) -> Seq<TaskView> {
    tasks.filter(|t: TaskView| !t.completed)
}

/// A task matches a search text when its description contains the text,
/// letter case set aside on both sides. The group plays no part.
pub open spec fn matches(task: TaskView, partial: Seq<char>) -> bool {
    contains(folded(task.description), folded(partial))
}

/// The identifiers of the tasks that match `partial`, in increasing order.
pub open spec fn found(tasks: Seq<TaskView>, partial: Seq<char>) -> Seq<int> {
    Seq::new(tasks.len(), |i: int| i + 1).filter(|id: int| matches(tasks[id - 1], partial))
}

fn not_found_text(id: usize) -> (r: String)
    ensures
        r@ == not_found(id as nat),
{
    let mut out = String::new();
    out.append("Task ");
    out.append(decimal_text(id).as_str());
    out.append(" does not exist");
    out
}

impl TodoList {
    /// The empty list.
    pub fn new() -> (r: Self)
        ensures
            r@ == Seq::<TaskView>::empty(),
    {
        Self { tasks: Vec::new() }
    }

    /// Appends an open task. Its identifier is the new length of the list.
    pub fn add_task(&mut self, description: String, group: Option<String>)
        ensures
            final(self)@ == with_task(old(self)@, description@, group.deep_view()),
    {
        self.tasks.push(Task { description, completed: false, group });
        assert(self@ == with_task(old(self)@, description@, group.deep_view()));
    }

    /// Flips the completion of task `task_id`, or reports that there is no
    /// such task and leaves the list as it was.
    pub fn toggle_task(&mut self, task_id: usize) -> (r: Result<(), String>)
        ensures
            r is Ok <==> valid_id(old(self)@, task_id as int),
            r is Err ==> r->Err_0@ == not_found(task_id as nat),
            final(self)@ == toggled(old(self)@, task_id as int),
    {
        if task_id == 0 || task_id > self.tasks.len() {
            return Err(not_found_text(task_id));
        }
        let done = self.tasks[task_id - 1].completed;
        self.tasks[task_id - 1].completed = !done;
        assert(self@ == toggled(old(self)@, task_id as int));
        Ok(())
    }

    /// Deletes task `task_id`, so that every later task moves one position
    /// down, or reports that there is no such task and leaves the list as
    /// it was.
    pub fn remove_task(&mut self, task_id: usize) -> (r: Result<(), String>)
        ensures
            r is Ok <==> valid_id(old(self)@, task_id as int),
            r is Err ==> r->Err_0@ == not_found(task_id as nat),
            final(self)@ == without(old(self)@, task_id as int),
    {
        if task_id == 0 || task_id > self.tasks.len() {
            return Err(not_found_text(task_id));
        }
        self.tasks.remove(task_id - 1);
        assert(self@ == without(old(self)@, task_id as int));
        Ok(())
    }

    /// Replaces the description of task `task_id` and nothing else of it, or
    /// reports that there is no such task and leaves the list as it was.
    pub fn edit_task(&mut self, task_id: usize, new_description: String) -> (r: Result<(), String>)
        ensures
            r is Ok <==> valid_id(old(self)@, task_id as int),
            r is Err ==> r->Err_0@ == not_found(task_id as nat),
            final(self)@ == edited(old(self)@, task_id as int, new_description@),
    {
        if task_id == 0 || task_id > self.tasks.len() {
            return Err(not_found_text(task_id));
        }
        self.tasks[task_id - 1].description = new_description;
        assert(self@ == edited(old(self)@, task_id as int, new_description@));
        Ok(())
    }

    /// The tasks whose description contains `partial_description`, letter
    /// case apart: each with its identifier, its position in the list
    /// counted from one, in the order of the list. An empty text finds
    /// every task.
    pub fn search_tasks(&self, partial_description: &str) -> (r: Vec<(usize, &Task)>)
        ensures
            r@.len() == found(self@, partial_description@).len(),
            forall|k: int|
                0 <= k < r@.len() ==> #[trigger] r@[k].0 == found(self@, partial_description@)[k],
            forall|k: int|
                0 <= k < r@.len() ==> 1 <= (#[trigger] r@[k]).0 <= self.tasks@.len() && *r@[k].1
                    == self.tasks@[r@[k].0 - 1],
            partial_description@.len() == 0 ==> r@.len() == self.tasks@.len(),
            partial_description@.len() == 0 ==> forall|k: int|
                0 <= k < r@.len() ==> (#[trigger] r@[k]).0 == k + 1,
    {
        let needle = fold_case(partial_description);
        let mut out: Vec<(usize, &Task)> = Vec::new();
        let ghost ids = Seq::new(self@.len(), |i: int| i + 1);
        let ghost wanted = |id: int| matches(self@[id - 1], partial_description@);
        let mut i: usize = 0;
        proof {
            reveal(Seq::filter);
            assert(ids.take(0) == Seq::<int>::empty());
        }
        while i < self.tasks.len()
            invariant
                i <= self.tasks.len(),
                needle@ == folded(partial_description@),
                partial_description@.len() == 0 ==> needle@.len() == 0,
                ids == Seq::new(self@.len(), |i: int| i + 1),
                wanted == |id: int| matches(self@[id - 1], partial_description@),
                out@.len() == ids.take(i as int).filter(wanted).len(),
                forall|k: int|
                    0 <= k < out@.len() ==> {
                        &&& #[trigger] out@[k].0 == ids.take(i as int).filter(wanted)[k]
                        &&& 1 <= out@[k].0 <= i
                        &&& *out@[k].1 == self.tasks@[out@[k].0 - 1]
                    },
                partial_description@.len() == 0 ==> {
                    &&& out@.len() == i
                    &&& forall|k: int| 0 <= k < out@.len() ==> (#[trigger] out@[k]).0 == k + 1
                },
            decreases self.tasks.len() - i,
        {
            let task = &self.tasks[i];
            let description = fold_case(task.description.as_str());
            let hit = contains_text(description.as_str(), needle.as_str());
            proof {
                reveal(Seq::filter);
                assert(ids.take(i + 1).drop_last() == ids.take(i as int));
                assert(ids.take(i + 1).last() == i + 1);
                assert(hit == wanted(i + 1));
                if needle@.len() == 0 {
                    assert(description@.subrange(0, 0) == needle@);
                    assert(occurs_at(description@, needle@, 0));
                }
            }
            if hit {
                out.push((i + 1, task));
            }
            i += 1;
        }
        assert(ids.take(i as int) == ids);
        out
    }

    /// Removes every completed task and keeps the others in their order.
    pub fn clear(&mut self)
        ensures
            final(self)@ == pending(old(self)@),
    {
        let ghost before = self@;
        let ghost open = |t: TaskView| !t.completed;
        let mut i: usize = 0;
        let ghost mut seen: int = 0;
        proof {
            reveal(Seq::filter);
            assert(before.take(0) == Seq::<TaskView>::empty());
        }
        while i < self.tasks.len()
            invariant
                open == |t: TaskView| !t.completed,
                i <= self.tasks.len(),
                0 <= seen <= before.len(),
                self.tasks.len() - i == before.len() - seen,
                self@.take(i as int) == before.take(seen).filter(open),
                self@.skip(i as int) == before.skip(seen),
            decreases self.tasks.len() - i,
        {
            proof {
                reveal(Seq::filter);
                assert(before.take(seen + 1).drop_last() == before.take(seen));
                assert(before.take(seen + 1).last() == before[seen]);
                assert(self@[i as int] == self@.skip(i as int)[0]);
            }
            let ghost current = self@;
            if self.tasks[i].completed {
                self.tasks.remove(i);
                proof {
                    assert(self@ == current.remove(i as int));
                    assert(self@.take(i as int) == current.take(i as int));
                    assert(self@.skip(i as int) == current.skip(i as int).drop_first());
                    assert(before.skip(seen).drop_first() == before.skip(seen + 1));
                }
            } else {
                proof {
                    assert(current.take(i + 1) == current.take(i as int).push(current[i as int]));
                    assert(current.skip(i as int).drop_first() == current.skip(i + 1));
                    assert(before.skip(seen).drop_first() == before.skip(seen + 1));
                }
                i += 1;
            }
            proof {
                seen = seen + 1;
            }
        }
        proof {
            assert(self@.take(i as int) == self@);
            assert(before.take(seen) == before);
        }
    }
}

/// Toggling the same task twice restores the list, and with it the
/// completion of that task.
pub proof fn lemma_toggle_twice(tasks: Seq<TaskView>, id: int)
    ensures
        toggled(toggled(tasks, id), id) == tasks,
{
}

/// The identifiers zero and one past the length name no task.
pub proof fn lemma_ids_out_of_range(tasks: Seq<TaskView>)
    ensures
        !valid_id(tasks, 0),
        !valid_id(tasks, tasks.len() as int + 1),
{
}

/// After task `id` is removed, the tasks before it keep their places and
/// each task behind it has moved one down: `id` now names the task that
/// followed the removed one, or no task if the removed one was the last.
pub proof fn lemma_remove_shifts(tasks: Seq<TaskView>, id: int)
    requires
        valid_id(tasks, id),
    ensures
        without(tasks, id).len() == tasks.len() - 1,
        forall|i: int| 0 <= i < id - 1 ==> #[trigger] without(tasks, id)[i] == tasks[i],
        forall|i: int|
            id - 1 <= i < tasks.len() - 1 ==> #[trigger] without(tasks, id)[i] == tasks[i + 1],
        id < tasks.len() ==> valid_id(without(tasks, id), id),
        id == tasks.len() ==> !valid_id(without(tasks, id), id),
{
}

/// What `pending` keeps: all and only the tasks that are not completed.
pub proof fn lemma_pending_exact(tasks: Seq<TaskView>)
    ensures
        forall|t: TaskView| pending(tasks).contains(t) <==> tasks.contains(t) && !t.completed,
        pending(tasks).len() <= tasks.len(),
{
    let open = |t: TaskView| !t.completed;
    broadcast use Seq::lemma_filter_contains_rev, Seq::lemma_filter_len;

    assert forall|t: TaskView| tasks.contains(t) && !t.completed implies pending(tasks).contains(
        t,
    ) by {
        let i = choose|i: int| 0 <= i < tasks.len() && tasks[i] == t;
        tasks.lemma_filter_contains(open, i);
    }
}

/// A list without completed tasks is its own `pending` part.
pub proof fn lemma_pending_of_open(tasks: Seq<TaskView>)
    requires
        forall|i: int| 0 <= i < tasks.len() ==> !tasks[i].completed,
    ensures
        pending(tasks) == tasks,
    decreases tasks.len(),
{
    reveal(Seq::filter);
    if tasks.len() > 0 {
        lemma_pending_of_open(tasks.drop_last());
        assert(tasks.drop_last().push(tasks.last()) == tasks);
    }
}

/// Clearing twice is clearing once.
pub proof fn lemma_clear_idempotent(tasks: Seq<TaskView>)
    ensures
        pending(pending(tasks)) == pending(tasks),
{
    let open = |t: TaskView| !t.completed;
    assert forall|i: int| 0 <= i < pending(tasks).len() implies !pending(tasks)[i].completed by {
        tasks.lemma_filter_pred(open, i);
    }
    lemma_pending_of_open(pending(tasks));
}

/// A search for a text whose form, letter case set aside, is empty finds
/// every task, in the order of the list.
pub proof fn lemma_search_finds_all(tasks: Seq<TaskView>, partial: Seq<char>)
    requires
        folded(partial).len() == 0,
    ensures
        found(tasks, partial) == Seq::new(tasks.len(), |i: int| i + 1),
{
    let ids = Seq::new(tasks.len(), |i: int| i + 1);
    lemma_filter_keeps_all(ids, |id: int| matches(tasks[id - 1], partial), tasks, partial);
}

/// A filter keeps a sequence whose elements it all accepts.
proof fn lemma_filter_keeps_all(
    s: Seq<int>,
    wanted: spec_fn(int) -> bool,
    tasks: Seq<TaskView>,
    partial: Seq<char>,
)
    requires
        folded(partial).len() == 0,
        wanted == |id: int| matches(tasks[id - 1], partial),
    ensures
        s.filter(wanted) == s,
    decreases s.len(),
{
    reveal(Seq::filter);
    if s.len() > 0 {
        lemma_filter_keeps_all(s.drop_last(), wanted, tasks, partial);
        let hay = folded(tasks[s.last() - 1].description);
        assert(hay.subrange(0, 0) == folded(partial));
        assert(occurs_at(hay, folded(partial), 0));
        assert(s.drop_last().push(s.last()) == s);
    }
}

/// A search sees its text with letter case set aside: two texts with the
/// same form find the same tasks.
pub proof fn lemma_search_ignores_case(tasks: Seq<TaskView>, a: Seq<char>, b: Seq<char>)
    requires
        folded(a) == folded(b),
    ensures
        found(tasks, a) == found(tasks, b),
{
    assert((|id: int| matches(tasks[id - 1], a)) =~= (|id: int| matches(tasks[id - 1], b)));
}

/// A search is blind to the case of the letters `a` to `z` of its text:
/// the text, the text in capitals and the text in small letters find the
/// same tasks, in the same order, under the same identifiers.
pub proof fn lemma_search_ignores_ascii_case(tasks: Seq<TaskView>, partial: Seq<char>)
    ensures
        found(tasks, ascii_upper(partial)) == found(tasks, partial),
        found(tasks, ascii_lower(partial)) == found(tasks, partial),
{
    lemma_folded_ignores_ascii_case(partial);
    lemma_search_ignores_case(tasks, ascii_upper(partial), partial);
    lemma_search_ignores_case(tasks, ascii_lower(partial), partial);
}

/// A search is blind to the case of the letters `a` to `z` of a
/// description: a text is found in a description, in its capitals and in
/// its small letters alike.
pub proof fn lemma_match_ignores_ascii_case(task: TaskView, partial: Seq<char>)
    ensures
        matches(TaskView { description: ascii_upper(task.description), ..task }, partial)
            == matches(task, partial),
        matches(TaskView { description: ascii_lower(task.description), ..task }, partial)
            == matches(task, partial),
{
    lemma_folded_ignores_ascii_case(task.description);
}

} // verus!
