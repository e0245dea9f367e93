//! Reading back what was written.
//!
//! A list comes back from its markdown text in the order of its layout, and
//! with every task as it was, provided that the text can hold its
//! descriptions and group names: each must be free of line feeds and of
//! white space at its ends, and not empty.

use crate::group::{group_names, layout, lemma_group_names_exact, section, sections};
use crate::markdown::{
    checkbox, line_end, line_of, lines, loose_text, markdown, parsed, section_text, sections_text,
    task_line, task_lines, tasks_of, title, LineView,
};
use crate::task::TaskView;
use crate::text::{starts_with, trim, trim_end, trim_start, whitespace};
use vstd::prelude::*;

verus! {

/// A text that a line of the stored list can hold and give back: not empty,
/// without white space at its ends, without a line feed.
pub open spec fn plain(s: Seq<char>) -> bool {
    s.len() > 0 && trim(s) == s && !s.contains('\n')
}

/// A task whose description and group name the stored list can hold.
pub open spec fn storable(task: TaskView) -> bool {
    plain(task.description) && (task.group matches Some(name) ==> plain(name))
}

proof fn lemma_trim_start_len(s: Seq<char>)
    ensures
        trim_start(s).len() <= s.len(),
    decreases s.len(),
{
    if s.len() > 0 && whitespace(s[0]) {
        lemma_trim_start_len(s.drop_first());
    }
}

proof fn lemma_trim_end_len(s: Seq<char>)
    ensures
        trim_end(s).len() <= s.len(),
    decreases s.len(),
{
    if s.len() > 0 && whitespace(s.last()) {
        lemma_trim_end_len(s.drop_last());
    }
}

/// A text that trimming leaves alone has no white space at its ends.
proof fn lemma_plain_ends(s: Seq<char>)
    requires
        s.len() > 0,
        trim(s) == s,
    ensures
        !whitespace(s[0]),
        !whitespace(s.last()),
{
    if whitespace(s[0]) {
        lemma_trim_start_len(s.drop_first());
        lemma_trim_end_len(trim_start(s));
    } else if whitespace(s.last()) {
        lemma_trim_end_len(s.drop_last());
    }
}

/// Trimming leaves alone a text without white space at its ends.
proof fn lemma_trim_clean(s: Seq<char>)
    requires
        s.len() > 0,
        !whitespace(s[0]),
        !whitespace(s.last()),
    ensures
        trim(s) == s,
{
}

/// The first line of a text ends where its first line feed stands.
proof fn lemma_line_end(line: Seq<char>, rest: Seq<char>)
    requires
        !line.contains('\n'),
    ensures
        line_end(line + seq!['\n'] + rest) == line.len(),
    decreases line.len(),
{
    let text = line + seq!['\n'] + rest;
    if line.len() == 0 {
        assert(text[0] == '\n');
    } else {
        assert(line[0] != '\n');
        assert(text[0] == line[0]);
        assert(text.drop_first() == line.drop_first() + seq!['\n'] + rest);
        assert forall|i: int| 0 <= i < line.drop_first().len() implies line.drop_first()[i]
            != '\n' by {
            assert(line[i + 1] == line.drop_first()[i]);
        }
        lemma_line_end(line.drop_first(), rest);
    }
}

/// A text that begins with a line and a line feed has that line first, and
/// then the lines of what follows.
proof fn lemma_lines_first(line: Seq<char>, rest: Seq<char>)
    requires
        !line.contains('\n'),
    ensures
        lines(line + seq!['\n'] + rest) == seq![line] + lines(rest),
{
    let text = line + seq!['\n'] + rest;
    lemma_line_end(line, rest);
    assert(text.take(line.len() as int) == line);
    assert(text.skip(line.len() as int + 1) == rest);
}

/// What a first line adds to the tasks of the lines behind it.
proof fn lemma_tasks_first(line: Seq<char>, rest: Seq<char>, group: Option<Seq<char>>)
    requires
        !line.contains('\n'),
    ensures
        tasks_of(lines(line + seq!['\n'] + rest), group) == (match line_of(line) {
            LineView::Heading(name) => tasks_of(lines(rest), Some(name)),
            LineView::Item { completed, description } => seq![
                TaskView { description, completed, group },
            ] + tasks_of(lines(rest), group),
            _ => tasks_of(lines(rest), group),
        }),
{
    lemma_lines_first(line, rest);
    let all = seq![line] + lines(rest);
    assert(all[0] == line);
    assert(all.drop_first() == lines(rest));
}

/// The line of a task, without the line feed that ends it.
spec fn item_text(task: TaskView) -> Seq<char> {
    "- "@ + checkbox(task.completed) + " "@ + task.description
}

/// The line of a task reads as that task.
proof fn lemma_item_line(task: TaskView)
    requires
        plain(task.description),
    ensures
        !item_text(task).contains('\n'),
        line_of(item_text(task)) == (LineView::Item {
            completed: task.completed,
            description: task.description,
        }),
        task_line(task) == item_text(task) + seq!['\n'],
{
    reveal_strlit("- ");
    reveal_strlit("[x]");
    reveal_strlit("[ ]");
    reveal_strlit(" ");
    reveal_strlit("\n");
    reveal_strlit("# ");
    reveal_strlit("## ");
    reveal_strlit("- [");
    let line = item_text(task);
    let description = task.description;
    lemma_plain_ends(description);
    assert(line.len() == 6 + description.len());
    assert(line[0] == '-');
    assert(line.last() == description.last());
    lemma_trim_clean(line);
    assert forall|i: int| 0 <= i < line.len() implies line[i] != '\n' by {
        if i >= 6 {
            assert(line[i] == description[i - 6]);
        }
    }
    assert(!starts_with(line, "# "@)) by {
        assert(line.take(2)[0] == '-');
    }
    assert(!starts_with(line, "## "@)) by {
        assert(line.take(3)[0] == '-');
    }
    assert(line.take(3) == "- ["@);
    assert(line[4] == ']');
    assert(line.skip(5).drop_first() == description);
    assert(trim(line.skip(5)) == description);
    assert(line[3] == 'x' <==> task.completed);
    assert("\n"@ == seq!['\n']);
}

/// The heading of a group reads as that heading.
proof fn lemma_heading_line(name: Seq<char>)
    requires
        plain(name),
    ensures
        !("## "@ + name).contains('\n'),
        line_of("## "@ + name) == LineView::Heading(name),
{
    reveal_strlit("# ");
    reveal_strlit("## ");
    let line = "## "@ + name;
    lemma_plain_ends(name);
    assert(line[0] == '#');
    assert(line.last() == name.last());
    lemma_trim_clean(line);
    assert forall|i: int| 0 <= i < line.len() implies line[i] != '\n' by {
        if i >= 3 {
            assert(line[i] == name[i - 3]);
        }
    }
    assert(!starts_with(line, "# "@)) by {
        assert(line.take(2)[1] == '#');
    }
    assert(line.take(3) == "## "@);
    assert(line.skip(3) == name);
}

/// A blank line adds nothing.
proof fn lemma_blank_line(rest: Seq<char>, group: Option<Seq<char>>)
    ensures
        tasks_of(lines(seq!['\n'] + rest), group) == tasks_of(lines(rest), group),
{
    let blank = Seq::<char>::empty();
    assert(blank + seq!['\n'] + rest == seq!['\n'] + rest);
    lemma_tasks_first(blank, rest, group);
}

/// The lines of tasks of one group, read under that group, give those
/// tasks back; what follows is read under the same group.
proof fn lemma_read_task_lines(tasks: Seq<TaskView>, rest: Seq<char>, group: Option<Seq<char>>)
    requires
        forall|i: int| 0 <= i < tasks.len() ==> plain(#[trigger] tasks[i].description),
        forall|i: int| 0 <= i < tasks.len() ==> #[trigger] tasks[i].group == group,
    ensures
        tasks_of(lines(task_lines(tasks) + rest), group) == tasks + tasks_of(lines(rest), group),
    decreases tasks.len(),
{
    if tasks.len() == 0 {
        assert(task_lines(tasks) + rest == rest);
        assert(tasks + tasks_of(lines(rest), group) == tasks_of(lines(rest), group));
    } else {
        let front = tasks.drop_last();
        let last = tasks.last();
        let tail = task_line(last) + rest;
        assert(task_lines(tasks) + rest == task_lines(front) + tail);
        lemma_read_task_lines(front, tail, group);
        lemma_item_line(last);
        assert(tail == item_text(last) + seq!['\n'] + rest);
        lemma_tasks_first(item_text(last), rest, group);
        assert(tasks[tasks.len() - 1].group == group);
        assert(last == TaskView {
            description: last.description,
            completed: last.completed,
            group,
        });
        assert(front + (seq![last] + tasks_of(lines(rest), group)) == tasks + tasks_of(
            lines(rest),
            group,
        ));
    }
}

/// The tasks of a section are tasks of the list.
proof fn lemma_section_storable(tasks: Seq<TaskView>, group: Option<Seq<char>>)
    requires
        forall|i: int| 0 <= i < tasks.len() ==> storable(#[trigger] tasks[i]),
    ensures
        forall|i: int|
            0 <= i < section(tasks, group).len() ==> plain(
                #[trigger] section(tasks, group)[i].description,
            ),
        forall|i: int|
            0 <= i < section(tasks, group).len() ==> #[trigger] section(tasks, group)[i].group
                == group,
{
    let part = section(tasks, group);
    let wanted = |t: TaskView| t.group == group;
    assert forall|i: int| 0 <= i < part.len() implies plain(#[trigger] part[i].description)
        && part[i].group == group by {
        tasks.lemma_filter_pred(wanted, i);
        assert(part.contains(part[i]));
        tasks.lemma_filter_contains_rev(wanted, part[i]);
        let k = choose|k: int| 0 <= k < tasks.len() && tasks[k] == part[i];
        assert(storable(tasks[k]));
    }
}

/// The section of a group reads as the tasks of that group, whatever group
/// was in force before it; what follows is read under that group.
proof fn lemma_read_section(
    tasks: Seq<TaskView>,
    name: Seq<char>,
    rest: Seq<char>,
    group: Option<Seq<char>>,
)
    requires
        forall|i: int| 0 <= i < tasks.len() ==> storable(#[trigger] tasks[i]),
        plain(name),
    ensures
        tasks_of(lines(section_text(tasks, name) + rest), group) == section(tasks, Some(name))
            + tasks_of(lines(rest), Some(name)),
{
    reveal_strlit("\n");
    let part = section(tasks, Some(name));
    let heading = "## "@ + name;
    let body = task_lines(part) + (seq!['\n'] + rest);
    assert(section_text(tasks, name) + rest == heading + seq!['\n'] + body);
    lemma_heading_line(name);
    lemma_tasks_first(heading, body, group);
    lemma_section_storable(tasks, Some(name));
    lemma_read_task_lines(part, seq!['\n'] + rest, Some(name));
    lemma_blank_line(rest, Some(name));
}

/// The group in force behind the sections of `names`.
spec fn group_behind(names: Seq<Seq<char>>, group: Option<Seq<char>>) -> Option<Seq<char>> {
    if names.len() == 0 {
        group
    } else {
        Some(names.last())
    }
}

/// The sections of groups read as the tasks of those groups, section by
/// section.
proof fn lemma_read_sections(
    tasks: Seq<TaskView>,
    names: Seq<Seq<char>>,
    rest: Seq<char>,
    group: Option<Seq<char>>,
)
    requires
        forall|i: int| 0 <= i < tasks.len() ==> storable(#[trigger] tasks[i]),
        forall|k: int| 0 <= k < names.len() ==> plain(#[trigger] names[k]),
    ensures
        tasks_of(lines(sections_text(tasks, names) + rest), group) == sections(tasks, names)
            + tasks_of(lines(rest), group_behind(names, group)),
    decreases names.len(),
{
    if names.len() == 0 {
        assert(sections_text(tasks, names) + rest == rest);
        assert(sections(tasks, names) + tasks_of(lines(rest), group) == tasks_of(
            lines(rest),
            group,
        ));
    } else {
        let front = names.drop_last();
        let tail = section_text(tasks, names.last()) + rest;
        assert(sections_text(tasks, names) + rest == sections_text(tasks, front) + tail);
        lemma_read_sections(tasks, front, tail, group);
        lemma_read_section(tasks, names.last(), rest, group_behind(front, group));
        assert(sections(tasks, front) + (section(tasks, Some(names.last())) + tasks_of(
            lines(rest),
            Some(names.last()),
        )) == sections(tasks, names) + tasks_of(lines(rest), Some(names.last())));
    }
}

/// The part of the text before the first heading reads as the tasks
/// without a group.
proof fn lemma_read_loose(tasks: Seq<TaskView>, rest: Seq<char>)
    requires
        forall|i: int| 0 <= i < tasks.len() ==> storable(#[trigger] tasks[i]),
    ensures
        tasks_of(lines(loose_text(tasks) + rest), None) == section(tasks, None) + tasks_of(
            lines(rest),
            None,
        ),
{
    reveal_strlit("\n");
    let part = section(tasks, None);
    if part.len() > 0 {
        assert(loose_text(tasks) + rest == task_lines(part) + (seq!['\n'] + rest));
        lemma_section_storable(tasks, None);
        lemma_read_task_lines(part, seq!['\n'] + rest, None);
        lemma_blank_line(rest, None);
    } else {
        assert(loose_text(tasks) + rest == rest);
        assert(part + tasks_of(lines(rest), None) == tasks_of(lines(rest), None));
    }
}

/// The title and the blank line behind it add nothing.
proof fn lemma_read_title(rest: Seq<char>)
    ensures
        tasks_of(lines(title() + rest), None) == tasks_of(lines(rest), None),
{
    reveal_strlit("# Hardly Working TODO List\n\n");
    reveal_strlit("# Hardly Working TODO List");
    reveal_strlit("# ");
    let line = "# Hardly Working TODO List"@;
    assert(title() + rest == line + seq!['\n'] + (seq!['\n'] + rest));
    assert(line[0] == '#' && line.last() == 't');
    lemma_trim_clean(line);
    assert(line.take(2) == "# "@);
    assert(line_of(line) == LineView::Title);
    lemma_tasks_first(line, seq!['\n'] + rest, None);
    lemma_blank_line(rest, None);
}

/// Reading the markdown text of a list gives its tasks back, each as it
/// was, in the order of the layout: the tasks without a group first, then
/// group by group. Within a group, and among the tasks without one, the
/// order of the list is kept; across them it is not.
pub proof fn lemma_round_trip(tasks: Seq<TaskView>)
    requires
        forall|i: int| 0 <= i < tasks.len() ==> storable(#[trigger] tasks[i]),
    ensures
        parsed(markdown(tasks)) == layout(tasks),
{
    let names = group_names(tasks);
    let nothing = Seq::<char>::empty();
    assert forall|k: int| 0 <= k < names.len() implies plain(#[trigger] names[k]) by {
        assert(names.contains(names[k]));
        lemma_group_names_exact(tasks, names[k]);
        let i = choose|i: int| 0 <= i < tasks.len() && #[trigger] tasks[i].group == Some(names[k]);
        assert(storable(tasks[i]));
    }
    assert(markdown(tasks) == title() + (loose_text(tasks) + (sections_text(tasks, names)
        + nothing)));
    lemma_read_title(loose_text(tasks) + (sections_text(tasks, names) + nothing));
    lemma_read_loose(tasks, sections_text(tasks, names) + nothing);
    lemma_read_sections(tasks, names, nothing, None);
    assert(tasks_of(lines(nothing), group_behind(names, None)) == Seq::<TaskView>::empty());
    assert(section(tasks, None) + (sections(tasks, names) + Seq::<TaskView>::empty()) == layout(
        tasks,
    ));
}

} // verus!
