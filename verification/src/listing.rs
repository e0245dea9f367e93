//! The listing of a list: what is shown of it, line by line.
//!
//! A listing follows the layout of the list. The tasks without a group come
//! first; each group follows under its heading. Every task is shown with
//! its identifier.

use crate::group::{group_names, in_section, layout, section, sections};
use crate::task::{Task, TaskView, TodoList};
use crate::text::{decimal, decimal_text};
use vstd::prelude::*;

verus! {

/// The identifiers of the tasks of `tasks` whose group is `group`,
/// increasing.
pub open spec fn positions(tasks: Seq<TaskView>, group: Option<Seq<char>>) -> Seq<int> {
    Seq::new(tasks.len(), |i: int| i + 1).filter(|id: int| tasks[id - 1].group == group)
}

/// One line of the listing of a list.
pub enum Entry<'a> {
    /// The heading of a group.
    Heading(String),
    /// A task, with its identifier: its position in the list, counted from
    /// one.
    Item { id: usize, task: &'a Task },
}

/// A line of a listing, as plain values.
pub enum EntryView {
    Heading(Seq<char>),
    Item { id: int, task: TaskView },
}

impl<'a> View for Entry<'a> {
    type V = EntryView;

    open spec fn view(&self) -> EntryView {
        match self {
            Entry::Heading(name) => EntryView::Heading(name@),
            Entry::Item { id, task } => EntryView::Item { id: *id as int, task: task@ },
        }
    }
}

/// The entry of the task `id`.
pub open spec fn item(tasks: Seq<TaskView>, id: int) -> EntryView {
    EntryView::Item { id, task: tasks[id - 1] }
}

/// The entries of the tasks whose group is `group`.
pub open spec fn items(tasks: Seq<TaskView>, group: Option<Seq<char>>) -> Seq<EntryView> {
    positions(tasks, group).map_values(|id: int| item(tasks, id))
}

/// The entries of the groups `names`: for each its heading, then its tasks.
pub open spec fn group_entries(tasks: Seq<TaskView>, names: Seq<Seq<char>>) -> Seq<EntryView>
    decreases names.len(),
{
    if names.len() == 0 {
        Seq::empty()
    } else {
        group_entries(tasks, names.drop_last()).push(EntryView::Heading(names.last())) + items(
            tasks,
            Some(names.last()),
        )
    }
}

/// The listing of a list: the tasks without a group, then the groups in
/// the order of their names.
pub open spec fn listing(tasks: Seq<TaskView>) -> Seq<EntryView> {
    items(tasks, None) + group_entries(tasks, group_names(tasks))
}

/// The tasks that the entries `entries` show, in their order.
pub open spec fn shown(entries: Seq<EntryView>) -> Seq<TaskView>
    decreases entries.len(),
{
    if entries.len() == 0 {
        Seq::empty()
    } else {
        match entries.last() {
            EntryView::Item { id, task } => shown(entries.drop_last()).push(task),
            EntryView::Heading(_) => shown(entries.drop_last()),
        }
    }
}

/// The parts of the line that shows one task.
pub struct TaskDisplay {
    /// The identifier of the task and a colon.
    pub line_num: String,
    /// `[x]` for a completed task, `[ ]` for an open one.
    pub checkbox: String,
    pub description: String,
    pub completed: bool,
}

/// The label before a task: its identifier, one more than its index, and a
/// colon.
pub open spec fn label(index: int) -> Seq<char> {
    decimal((index + 1) as nat) + ":"@
}

impl TodoList {
    /// Appends to `out` the entries of the tasks whose group is `group`.
    fn list_section<'a>(&'a self, out: &mut Vec<Entry<'a>>, group: Option<&String>)
        ensures
            final(out)@.map_values(|e: Entry| e@) == old(out)@.map_values(|e: Entry| e@) + items(
                self@,
                group.deep_view(),
            ),
    {
        let ghost start = out@.map_values(|e: Entry| e@);
        let ghost ids = Seq::new(self@.len(), |i: int| i + 1);
        let ghost wanted = |id: int| self@[id - 1].group == group.deep_view();
        let ghost entry = |id: int| item(self@, id);
        let mut i: usize = 0;
        proof {
            reveal(Seq::filter);
            assert(ids.take(0) == Seq::<int>::empty());
            assert(start + Seq::<int>::empty().map_values(entry) == start);
        }
        while i < self.tasks.len()
            invariant
                i <= self.tasks.len(),
                ids == Seq::new(self@.len(), |i: int| i + 1),
                wanted == |id: int| self@[id - 1].group == group.deep_view(),
                entry == |id: int| item(self@, id),
                out@.map_values(|e: Entry| e@) == start + ids.take(i as int).filter(
                    wanted,
                ).map_values(entry),
            decreases self.tasks.len() - i,
        {
            let task = &self.tasks[i];
            let ghost so_far = ids.take(i as int).filter(wanted);
            proof {
                reveal(Seq::filter);
                assert(ids.take(i + 1).drop_last() == ids.take(i as int));
                assert(ids.take(i + 1).last() == i + 1);
            }
            if in_section(task, group) {
                let ghost before = out@.map_values(|e: Entry| e@);
                out.push(Entry::Item { id: i + 1, task });
                proof {
                    assert(out@.map_values(|e: Entry| e@) == before.push(entry(i + 1)));
                    assert(so_far.push(i + 1).map_values(entry) == so_far.map_values(entry).push(
                        entry(i + 1),
                    ));
                    assert(start + so_far.map_values(entry).push(entry(i + 1)) == (start
                        + so_far.map_values(entry)).push(entry(i + 1)));
                }
            }
            i += 1;
        }
        assert(ids.take(i as int) == ids);
    }

    /// The listing of the list, line by line: the tasks without a group,
    /// then each group under its heading, the groups in the order of their
    /// names. An empty list has an empty listing.
    pub fn list_tasks(&self) -> (r: Vec<Entry<'_>>)
        ensures
            r@.map_values(|e: Entry| e@) == listing(self@),
    {
        let mut out: Vec<Entry<'_>> = Vec::new();
        self.list_section(&mut out, None);
        let names = self.group_names();
        let ghost head = out@.map_values(|e: Entry| e@);
        let mut k: usize = 0;
        proof {
            assert(Seq::<Entry>::empty().map_values(|e: Entry| e@) + items(self@, None) == items(
                self@,
                None,
            ));
            assert(names.deep_view().take(0) == Seq::<Seq<char>>::empty());
            assert(head + Seq::<EntryView>::empty() == head);
        }
        while k < names.len()
            invariant
                k <= names.len(),
                names.deep_view() == group_names(self@),
                out@.map_values(|e: Entry| e@) == head + group_entries(
                    self@,
                    names.deep_view().take(k as int),
                ),
            decreases names.len() - k,
        {
            let name = &names[k];
            let ghost before = out@.map_values(|e: Entry| e@);
            let ghost done = group_entries(self@, names.deep_view().take(k as int));
            out.push(Entry::Heading(name.clone()));
            assert(out@.map_values(|e: Entry| e@) == before.push(EntryView::Heading(name@)));
            self.list_section(&mut out, Some(name));
            proof {
                assert(names.deep_view().take(k + 1).drop_last() == names.deep_view().take(k as int));
                assert(names.deep_view().take(k + 1).last() == name@);
                assert((head + done).push(EntryView::Heading(name@)) + items(self@, Some(name@))
                    == head + (done.push(EntryView::Heading(name@)) + items(self@, Some(name@))));
            }
            k += 1;
        }
        assert(names.deep_view().take(k as int) == names.deep_view());
        out
    }

    /// The parts of the line that shows `task` as the task at `index`, an
    /// index counted from zero: the line begins with the identifier of the
    /// task, which is `index + 1`.
    pub fn display_task(&self, index: usize, task: &Task) -> (r: TaskDisplay)
        requires
            index < usize::MAX,
        ensures
            r.line_num@ == label(index as int),
            r.checkbox@ == (if task.completed {
                "[x]"@
            } else {
                "[ ]"@
            }),
            r.description@ == task.description@,
            r.completed == task.completed,
    {
        let mut line_num = decimal_text(index + 1);
        line_num.append(":");
        let checkbox = if task.completed {
            "[x]".to_owned()
        } else {
            "[ ]".to_owned()
        };
        TaskDisplay {
            line_num,
            checkbox,
            description: task.description.clone(),
            completed: task.completed,
        }
    }
}

/// The tasks that the identifiers of a group name are the section of that
/// group.
proof fn lemma_positions_section(tasks: Seq<TaskView>, group: Option<Seq<char>>, n: int)
    requires
        0 <= n <= tasks.len(),
    ensures
        Seq::new(tasks.len(), |i: int| i + 1).take(n).filter(
            |id: int| tasks[id - 1].group == group,
        ).map_values(|id: int| tasks[id - 1]) == tasks.take(n).filter(
            |t: TaskView| t.group == group,
        ),
    decreases n,
{
    reveal(Seq::filter);
    let ids = Seq::new(tasks.len(), |i: int| i + 1);
    if n > 0 {
        lemma_positions_section(tasks, group, n - 1);
        assert(ids.take(n).drop_last() == ids.take(n - 1));
        assert(tasks.take(n).drop_last() == tasks.take(n - 1));
        let so_far = ids.take(n - 1).filter(|id: int| tasks[id - 1].group == group);
        assert(so_far.push(n).map_values(|id: int| tasks[id - 1]) == so_far.map_values(
            |id: int| tasks[id - 1],
        ).push(tasks[n - 1]));
    } else {
        assert(ids.take(0).filter(|id: int| tasks[id - 1].group == group).map_values(
            |id: int| tasks[id - 1],
        ) == tasks.take(0).filter(|t: TaskView| t.group == group));
    }
}

/// What a sequence of entries shows is what its parts show, one after the
/// other.
proof fn lemma_shown_concat(a: Seq<EntryView>, b: Seq<EntryView>)
    ensures
        shown(a + b) == shown(a) + shown(b),
    decreases b.len(),
{
    if b.len() == 0 {
        assert(a + b == a);
        assert(shown(a) + shown(b) == shown(a));
    } else {
        lemma_shown_concat(a, b.drop_last());
        assert((a + b).drop_last() == a + b.drop_last());
        assert((a + b).last() == b.last());
        match b.last() {
            EntryView::Item { id, task } => {
                assert((shown(a) + shown(b.drop_last())).push(task) == shown(a) + shown(
                    b.drop_last(),
                ).push(task));
            },
            EntryView::Heading(_) => {},
        }
    }
}

/// The entries of a group show the section of that group.
proof fn lemma_shown_items(tasks: Seq<TaskView>, group: Option<Seq<char>>)
    ensures
        shown(items(tasks, group)) == section(tasks, group),
{
    let at = positions(tasks, group);
    lemma_positions_section(tasks, group, tasks.len() as int);
    assert(Seq::new(tasks.len(), |i: int| i + 1).take(tasks.len() as int) == Seq::new(
        tasks.len(),
        |i: int| i + 1,
    ));
    assert(tasks.take(tasks.len() as int) == tasks);
    lemma_shown_map(tasks, at);
}

/// Entries made of identifiers show the tasks that those identifiers name.
proof fn lemma_shown_map(tasks: Seq<TaskView>, at: Seq<int>)
    ensures
        shown(at.map_values(|id: int| item(tasks, id))) == at.map_values(|id: int| tasks[id - 1]),
    decreases at.len(),
{
    let entries = at.map_values(|id: int| item(tasks, id));
    if at.len() > 0 {
        lemma_shown_map(tasks, at.drop_last());
        assert(entries.drop_last() == at.drop_last().map_values(|id: int| item(tasks, id)));
        assert(at.map_values(|id: int| tasks[id - 1]) == at.drop_last().map_values(
            |id: int| tasks[id - 1],
        ).push(tasks[at.last() - 1]));
    } else {
        assert(at.map_values(|id: int| tasks[id - 1]) == Seq::<TaskView>::empty());
    }
}

/// The entries of groups show the sections of those groups.
proof fn lemma_shown_groups(tasks: Seq<TaskView>, names: Seq<Seq<char>>)
    ensures
        shown(group_entries(tasks, names)) == sections(tasks, names),
    decreases names.len(),
{
    if names.len() > 0 {
        let front = group_entries(tasks, names.drop_last());
        let heading = EntryView::Heading(names.last());
        lemma_shown_groups(tasks, names.drop_last());
        lemma_shown_concat(front.push(heading), items(tasks, Some(names.last())));
        lemma_shown_items(tasks, Some(names.last()));
        assert(front.push(heading).drop_last() == front);
    }
}

/// The listing of a list shows its tasks in the order of its layout: the
/// screen and the stored text follow the same order.
pub proof fn lemma_listing_shows_layout(tasks: Seq<TaskView>)
    ensures
        shown(listing(tasks)) == layout(tasks),
{
    lemma_shown_concat(items(tasks, None), group_entries(tasks, group_names(tasks)));
    lemma_shown_items(tasks, None);
    lemma_shown_groups(tasks, group_names(tasks));
}

} // verus!
