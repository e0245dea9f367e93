//! Groups and the order in which a list is laid out.
//!
//! A list is shown and stored in the same order: first the tasks without a
//! group, then one section for each group, the groups in lexicographic
//! order of their names. Within each part the tasks keep the order they
//! have in the list.

use crate::task::{Task, TaskView, TodoList};
use crate::text::{
    comes_before, lemma_precedes_irreflexive, lemma_precedes_total, lemma_precedes_transitive,
    precedes,
};
use vstd::prelude::*;

verus! {

/// The tasks of `tasks` whose group is `group`, in their order; with `None`,
/// the tasks without a group.
pub open spec fn section(tasks: Seq<TaskView>, group: Option<Seq<char>>) -> Seq<TaskView> {
    tasks.filter(|t: TaskView| t.group == group)
}

/// Each name comes strictly before every later one.
pub open spec fn increasing(names: Seq<Seq<char>>) -> bool {
    forall|i: int, j: int| 0 <= i < j < names.len() ==> precedes(names[i], names[j])
}

/// `names`, an increasing sequence, with `name` in its place, unless it is
/// there already.
pub open spec fn with_name(names: Seq<Seq<char>>, name: Seq<char>) -> Seq<Seq<char>>
    decreases names.len(),
{
    if names.len() == 0 {
        seq![name]
    } else if names.last() == name {
        names
    } else if precedes(names.last(), name) {
        names.push(name)
    } else {
        with_name(names.drop_last(), name).push(names.last())
    }
}

/// The names of the groups that occur in `tasks`, each once, in increasing
/// order.
pub open spec fn group_names(tasks: Seq<TaskView>) -> Seq<Seq<char>>
    decreases tasks.len(),
{
    if tasks.len() == 0 {
        Seq::empty()
    } else {
        match tasks.last().group {
            Some(name) => with_name(group_names(tasks.drop_last()), name),
            None => group_names(tasks.drop_last()),
        }
    }
}

/// The sections of the groups `names`, one after the other.
pub open spec fn sections(tasks: Seq<TaskView>, names: Seq<Seq<char>>) -> Seq<TaskView>
    decreases names.len(),
{
    if names.len() == 0 {
        Seq::empty()
    } else {
        sections(tasks, names.drop_last()) + section(tasks, Some(names.last()))
    }
}

/// The tasks in the order in which they are shown and stored.
pub open spec fn layout(tasks: Seq<TaskView>) -> Seq<TaskView> {
    section(tasks, None) + sections(tasks, group_names(tasks))
}

/// The group `a` has its place in a layout no later than the group `b`:
/// no group comes first, and a name comes before every greater name.
pub open spec fn no_later(a: Option<Seq<char>>, b: Option<Seq<char>>) -> bool {
    match (a, b) {
        (None, _) => true,
        (Some(_), None) => false,
        (Some(x), Some(y)) => x == y || precedes(x, y),
    }
}

/// Whether `task` belongs to the part of the list that `group` names.
pub(crate) fn in_section(task: &Task, group: Option<&String>) -> (r: bool)
    ensures
        r == (task@.group == group.deep_view()),
{
    match (&task.group, group) {
        (Some(own), Some(name)) => *own == *name,
        (None, None) => true,
        _ => false,
    }
}

fn insert_name(names: &mut Vec<String>, name: &String)
    ensures
        final(names).deep_view() == with_name(old(names).deep_view(), name@),
{
    let ghost all = names.deep_view();
    let mut j: usize = names.len();
    let mut searching = true;
    assert(all.take(j as int) == all && all.skip(j as int) == Seq::<Seq<char>>::empty());
    while searching && j > 0
        invariant
            j <= names.len(),
            names@ == old(names)@,
            all == names.deep_view(),
            with_name(all, name@) == with_name(all.take(j as int), name@) + all.skip(j as int),
            !searching ==> j > 0 && precedes(all[j - 1], name@),
        decreases (if searching { j + 1 } else { 0 }),
    {
        assert(all.take(j as int).last() == all[j - 1]);
        if names[j - 1] == *name {
            assert(all.take(j as int) + all.skip(j as int) == all);
            return;
        }
        if comes_before(names[j - 1].as_str(), name.as_str()) {
            searching = false;
        } else {
            proof {
                assert(all.take(j as int).drop_last() == all.take(j - 1));
                assert(with_name(all.take(j - 1), name@).push(all[j - 1]) + all.skip(j as int)
                    == with_name(all.take(j - 1), name@) + all.skip(j - 1));
            }
            j -= 1;
        }
    }
    names.insert(j, name.clone());
    proof {
        let head = all.take(j as int);
        if j == 0 {
            assert(seq![name@] == head.push(name@));
        } else {
            assert(head.last() == all[j - 1]);
            lemma_precedes_irreflexive(name@);
        }
        assert(with_name(head, name@) == head.push(name@));
        assert(names.deep_view() == all.take(j as int).push(name@) + all.skip(j as int));
    }
}

impl TodoList {
    /// The names of the groups of the list, each once, in increasing order.
    pub fn group_names(&self) -> (r: Vec<String>)
        ensures
            r.deep_view() == group_names(self@),
    {
        let mut names: Vec<String> = Vec::new();
        let mut i: usize = 0;
        assert(self@.take(0) == Seq::<TaskView>::empty());
        while i < self.tasks.len()
            invariant
                i <= self.tasks.len(),
                names.deep_view() == group_names(self@.take(i as int)),
            decreases self.tasks.len() - i,
        {
            proof {
                assert(self@.take(i + 1).drop_last() == self@.take(i as int));
                assert(self@.take(i + 1).last() == self.tasks@[i as int]@);
            }
            match &self.tasks[i].group {
                Some(name) => {
                    insert_name(&mut names, name);
                },
                None => {},
            }
            i += 1;
        }
        assert(self@.take(i as int) == self@);
        names
    }
}

/// `with_name` adds `name` and nothing else.
pub proof fn lemma_with_name_contains(names: Seq<Seq<char>>, name: Seq<char>, x: Seq<char>)
    ensures
        with_name(names, name).contains(x) <==> names.contains(x) || x == name,
    decreases names.len(),
{
    let out = with_name(names, name);
    if names.len() == 0 {
        assert(out[0] == name);
    } else if names.last() == name {
        assert(names[names.len() - 1] == name);
    } else if precedes(names.last(), name) {
        assert(out.drop_last() == names);
        assert(out.last() == name);
        if out.contains(x) {
            let i = choose|i: int| 0 <= i < out.len() && out[i] == x;
            if i < names.len() {
                assert(names[i] == x);
            }
        }
        if names.contains(x) {
            let i = choose|i: int| 0 <= i < names.len() && names[i] == x;
            assert(out[i] == x);
        }
        if x == name {
            assert(out[out.len() - 1] == x);
        }
    } else {
        let front = with_name(names.drop_last(), name);
        lemma_with_name_contains(names.drop_last(), name, x);
        if out.contains(x) {
            let i = choose|i: int| 0 <= i < out.len() && out[i] == x;
            if i < front.len() {
                assert(front[i] == x);
                if names.drop_last().contains(x) {
                    let k = choose|k: int| 0 <= k < names.drop_last().len() && names.drop_last()[k] == x;
                    assert(names[k] == x);
                }
            } else {
                assert(names[names.len() - 1] == x);
            }
        }
        if names.contains(x) {
            let i = choose|i: int| 0 <= i < names.len() && names[i] == x;
            if i < names.len() - 1 {
                assert(names.drop_last()[i] == x);
                let k = choose|k: int| 0 <= k < front.len() && front[k] == x;
                assert(out[k] == x);
            } else {
                assert(out[out.len() - 1] == x);
            }
        }
        if x == name {
            let k = choose|k: int| 0 <= k < front.len() && front[k] == x;
            assert(out[k] == x);
        }
    }
}

/// `with_name` keeps an increasing sequence increasing.
pub proof fn lemma_with_name_increasing(names: Seq<Seq<char>>, name: Seq<char>)
    requires
        increasing(names),
    ensures
        increasing(with_name(names, name)),
    decreases names.len(),
{
    let out = with_name(names, name);
    if names.len() == 0 {
    } else if names.last() == name {
    } else if precedes(names.last(), name) {
        assert forall|i: int, j: int| 0 <= i < j < out.len() implies precedes(out[i], out[j]) by {
            if j == names.len() && i < names.len() - 1 {
                lemma_precedes_transitive(names[i], names.last(), name);
            }
        }
    } else {
        let front = with_name(names.drop_last(), name);
        lemma_with_name_increasing(names.drop_last(), name);
        lemma_precedes_total(names.last(), name);
        assert forall|i: int, j: int| 0 <= i < j < out.len() implies precedes(out[i], out[j]) by {
            if j == front.len() {
                lemma_with_name_contains(names.drop_last(), name, front[i]);
                if front[i] != name {
                    let k = choose|k: int|
                        0 <= k < names.drop_last().len() && names.drop_last()[k] == front[i];
                    assert(precedes(names[k], names[names.len() - 1]));
                }
            } else {
                assert(precedes(front[i], front[j]));
            }
        }
    }
}

/// The group names of a list come in strictly increasing order: none
/// occurs twice, and the headings of the sections follow that order.
pub proof fn lemma_group_names_increasing(tasks: Seq<TaskView>)
    ensures
        increasing(group_names(tasks)),
    decreases tasks.len(),
{
    if tasks.len() > 0 {
        lemma_group_names_increasing(tasks.drop_last());
        if let Some(name) = tasks.last().group {
            lemma_with_name_increasing(group_names(tasks.drop_last()), name);
        }
    }
}

/// The group names of a list are the names that its tasks carry, and no
/// others.
pub proof fn lemma_group_names_exact(tasks: Seq<TaskView>, name: Seq<char>)
    ensures
        group_names(tasks).contains(name) <==> exists|i: int|
            0 <= i < tasks.len() && #[trigger] tasks[i].group == Some(name),
    decreases tasks.len(),
{
    if tasks.len() > 0 {
        let rest = tasks.drop_last();
        lemma_group_names_exact(rest, name);
        if let Some(last) = tasks.last().group {
            lemma_with_name_contains(group_names(rest), last, name);
        }
        if group_names(tasks).contains(name) {
            if group_names(rest).contains(name) {
                let i = choose|i: int| 0 <= i < rest.len() && #[trigger] rest[i].group == Some(name);
                assert(tasks[i].group == Some(name));
            } else {
                assert(tasks[tasks.len() - 1].group == Some(name));
            }
        }
        if exists|i: int| 0 <= i < tasks.len() && #[trigger] tasks[i].group == Some(name) {
            let i = choose|i: int| 0 <= i < tasks.len() && #[trigger] tasks[i].group == Some(name);
            if i < rest.len() {
                assert(rest[i].group == Some(name));
            }
        }
    }
}

/// Every task of a section has the group of the section.
pub proof fn lemma_section_group(tasks: Seq<TaskView>, group: Option<Seq<char>>, i: int)
    requires
        0 <= i < section(tasks, group).len(),
    ensures
        section(tasks, group)[i].group == group,
{
    tasks.lemma_filter_pred(|t: TaskView| t.group == group, i);
}

/// Every task among the sections of groups has a group.
pub proof fn lemma_sections_grouped(tasks: Seq<TaskView>, names: Seq<Seq<char>>, i: int)
    requires
        0 <= i < sections(tasks, names).len(),
    ensures
        sections(tasks, names)[i].group is Some,
    decreases names.len(),
{
    if names.len() > 0 {
        let front = sections(tasks, names.drop_last());
        if i < front.len() {
            lemma_sections_grouped(tasks, names.drop_last(), i);
        } else {
            lemma_section_group(tasks, Some(names.last()), i - front.len());
        }
    }
}

/// In the layout of a list the tasks without a group come before every
/// task with one, whatever their order in the list.
pub proof fn lemma_layout_loose_first(tasks: Seq<TaskView>, i: int, j: int)
    requires
        0 <= i < j < layout(tasks).len(),
        layout(tasks)[j].group is None,
    ensures
        layout(tasks)[i].group is None,
{
    let loose = section(tasks, None);
    if j >= loose.len() {
        lemma_sections_grouped(tasks, group_names(tasks), j - loose.len());
    } else {
        lemma_section_group(tasks, None, i);
    }
}

/// Every task among the sections of groups is in the group of one of them.
proof fn lemma_sections_member(tasks: Seq<TaskView>, names: Seq<Seq<char>>, i: int) -> (k: int)
    requires
        0 <= i < sections(tasks, names).len(),
    ensures
        0 <= k < names.len(),
        sections(tasks, names)[i].group == Some(names[k]),
        k < names.len() - 1 ==> i < sections(tasks, names.drop_last()).len(),
    decreases names.len(),
{
    let front = sections(tasks, names.drop_last());
    if i < front.len() {
        lemma_sections_member(tasks, names.drop_last(), i)
    } else {
        lemma_section_group(tasks, Some(names.last()), i - front.len());
        names.len() - 1
    }
}

/// Among the sections of groups with increasing names, the tasks come in
/// the order of the names of their groups.
proof fn lemma_sections_ordered(tasks: Seq<TaskView>, names: Seq<Seq<char>>, i: int, j: int)
    requires
        increasing(names),
        0 <= i < j < sections(tasks, names).len(),
    ensures
        no_later(sections(tasks, names)[i].group, sections(tasks, names)[j].group),
    decreases names.len(),
{
    let front = sections(tasks, names.drop_last());
    if j < front.len() {
        lemma_sections_ordered(tasks, names.drop_last(), i, j);
    } else {
        lemma_section_group(tasks, Some(names.last()), j - front.len());
        if i < front.len() {
            let k = lemma_sections_member(tasks, names.drop_last(), i);
            assert(precedes(names[k], names[names.len() - 1]));
        } else {
            lemma_section_group(tasks, Some(names.last()), i - front.len());
        }
    }
}

/// The tasks of a layout come in the order of their groups: first those
/// without a group, then group by group, the names increasing.
pub proof fn lemma_layout_ordered(tasks: Seq<TaskView>, i: int, j: int)
    requires
        0 <= i < j < layout(tasks).len(),
    ensures
        no_later(layout(tasks)[i].group, layout(tasks)[j].group),
{
    let loose = section(tasks, None);
    if i < loose.len() {
        lemma_section_group(tasks, None, i);
    } else {
        lemma_group_names_increasing(tasks);
        lemma_sections_ordered(tasks, group_names(tasks), i - loose.len(), j - loose.len());
    }
}

/// A section holds a task of its group as often as the list does, and no
/// other task.
proof fn lemma_section_count(tasks: Seq<TaskView>, group: Option<Seq<char>>, t: TaskView)
    ensures
        section(tasks, group).to_multiset().count(t) == (if t.group == group {
            tasks.to_multiset().count(t)
        } else {
            0
        }),
    decreases tasks.len(),
{
    broadcast use vstd::seq_lib::to_multiset_build;

    reveal(Seq::filter);
    if tasks.len() == 0 {
        assert(tasks.to_multiset().count(t) == 0) by {
            tasks.to_multiset_ensures();
            assert(!tasks.contains(t));
        }
        assert(section(tasks, group).to_multiset().count(t) == 0) by {
            section(tasks, group).to_multiset_ensures();
            assert(!section(tasks, group).contains(t));
        }
    } else {
        lemma_section_count(tasks.drop_last(), group, t);
        assert(tasks.drop_last().push(tasks.last()) == tasks);
    }
}

/// The names of an increasing sequence differ from one another.
proof fn lemma_increasing_distinct(names: Seq<Seq<char>>, i: int, j: int)
    requires
        increasing(names),
        0 <= i < j < names.len(),
    ensures
        names[i] != names[j],
{
    lemma_precedes_irreflexive(names[i]);
}

/// The sections of groups with different names hold a task whose group is
/// among them as often as the list does, and no other task.
proof fn lemma_sections_count(tasks: Seq<TaskView>, names: Seq<Seq<char>>, t: TaskView)
    requires
        increasing(names),
    ensures
        sections(tasks, names).to_multiset().count(t) == (if t.group is Some && names.contains(
            t.group->0,
        ) {
            tasks.to_multiset().count(t)
        } else {
            0
        }),
    decreases names.len(),
{
    if names.len() == 0 {
        sections(tasks, names).to_multiset_ensures();
        assert(!sections(tasks, names).contains(t));
    } else {
        let front = names.drop_last();
        let last = names.last();
        lemma_sections_count(tasks, front, t);
        lemma_section_count(tasks, Some(last), t);
        vstd::seq_lib::lemma_multiset_commutative(sections(tasks, front), section(tasks, Some(last)));
        if t.group == Some(last) {
            assert(names[names.len() - 1] == last);
            if front.contains(last) {
                let k = choose|k: int| 0 <= k < front.len() && front[k] == last;
                lemma_increasing_distinct(names, k, names.len() - 1);
            }
        } else if t.group is Some {
            let name = t.group->0;
            if names.contains(name) {
                let k = choose|k: int| 0 <= k < names.len() && names[k] == name;
                assert(front[k] == name);
            }
            if front.contains(name) {
                let k = choose|k: int| 0 <= k < front.len() && front[k] == name;
                assert(names[k] == name);
            }
        }
    }
}

/// The layout of a list holds the tasks of the list, each as often as the
/// list does: laying a list out moves its tasks and neither drops nor
/// repeats any.
pub proof fn lemma_layout_permutes(tasks: Seq<TaskView>)
    ensures
        layout(tasks).to_multiset() == tasks.to_multiset(),
        layout(tasks).len() == tasks.len(),
{
    let names = group_names(tasks);
    lemma_group_names_increasing(tasks);
    vstd::seq_lib::lemma_multiset_commutative(section(tasks, None), sections(tasks, names));
    assert forall|t: TaskView|
        layout(tasks).to_multiset().count(t) == tasks.to_multiset().count(t) by {
        lemma_section_count(tasks, None, t);
        lemma_sections_count(tasks, names, t);
        if t.group is Some && !names.contains(t.group->0) {
            lemma_group_names_exact(tasks, t.group->0);
            tasks.to_multiset_ensures();
            if tasks.contains(t) {
                let i = choose|i: int| 0 <= i < tasks.len() && tasks[i] == t;
                assert(tasks[i].group == Some(t.group->0));
            }
        }
    }
    assert(layout(tasks).to_multiset() =~= tasks.to_multiset());
    vstd::seq_lib::to_multiset_len(layout(tasks));
    vstd::seq_lib::to_multiset_len(tasks);
}

} // verus!
