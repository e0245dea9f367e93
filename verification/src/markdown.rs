//! The markdown form of a list.
//!
//! A list is stored as a checklist: a title, the tasks without a group, then
//! one headed section for each group. Reading takes the text line by line
//! and keeps what it recognises; every other line is passed over.

use crate::group::{group_names, in_section, section};
use crate::task::{Task, TaskView, TodoList};
use crate::text::{chars_of, range_starts_with, starts_with, string_of, trim, trim_range};
use vstd::prelude::*;

verus! {

/// The first line of every stored list, with the blank line behind it.
pub open spec fn title() -> Seq<char> {
    "# Hardly Working TODO List\n\n"@
}

/// The box of a task: crossed when it is completed.
pub open spec fn checkbox(completed: bool) -> Seq<char> {
    if completed {
        "[x]"@
    } else {
        "[ ]"@
    }
}

/// The line of one task.
pub open spec fn task_line(task: TaskView) -> Seq<char> {
    "- "@ + checkbox(task.completed) + " "@ + task.description + "\n"@
}

/// The lines of `tasks`, one after the other.
pub open spec fn task_lines(tasks: Seq<TaskView>) -> Seq<char>
    decreases tasks.len(),
{
    if tasks.len() == 0 {
        Seq::empty()
    } else {
        task_lines(tasks.drop_last()) + task_line(tasks.last())
    }
}

/// The part of the text that holds the tasks without a group: their lines
/// and a blank line, or nothing at all where there is no such task.
pub open spec fn loose_text(tasks: Seq<TaskView>) -> Seq<char> {
    if section(tasks, None).len() > 0 {
        task_lines(section(tasks, None)) + "\n"@
    } else {
        Seq::empty()
    }
}

/// The section of the group `name`: its heading, directly below it the
/// lines of its tasks, and a blank line.
pub open spec fn section_text(tasks: Seq<TaskView>, name: Seq<char>) -> Seq<char> {
    "## "@ + name + "\n"@ + task_lines(section(tasks, Some(name))) + "\n"@
}

/// The sections of the groups `names`, one after the other.
pub open spec fn sections_text(tasks: Seq<TaskView>, names: Seq<Seq<char>>) -> Seq<char>
    decreases names.len(),
{
    if names.len() == 0 {
        Seq::empty()
    } else {
        sections_text(tasks, names.drop_last()) + section_text(tasks, names.last())
    }
}

/// The markdown text of a list.
pub open spec fn markdown(tasks: Seq<TaskView>) -> Seq<char> {
    title() + loose_text(tasks) + sections_text(tasks, group_names(tasks))
}

impl TodoList {
    /// Appends to `out` the lines of the tasks whose group is `group`, and
    /// says how many they are.
    fn write_section(&self, out: &mut String, group: Option<&String>) -> (n: usize)
        ensures
            final(out)@ == old(out)@ + task_lines(section(self@, group.deep_view())),
            n == section(self@, group.deep_view()).len(),
    {
        let ghost wanted: Option<Seq<char>> = group.deep_view();
        let ghost start = out@;
        let mut n: usize = 0;
        let mut i: usize = 0;
        proof {
            reveal(Seq::filter);
            assert(self@.take(0) == Seq::<TaskView>::empty());
            assert(start + Seq::<char>::empty() == start);
        }
        while i < self.tasks.len()
            invariant
                i <= self.tasks.len(),
                n <= i,
                wanted == group.deep_view(),
                out@ == start + task_lines(section(self@.take(i as int), wanted)),
                n == section(self@.take(i as int), wanted).len(),
            decreases self.tasks.len() - i,
        {
            let task = &self.tasks[i];
            proof {
                reveal(Seq::filter);
                assert(self@.take(i + 1).drop_last() == self@.take(i as int));
                assert(self@.take(i + 1).last() == task@);
            }
            if in_section(task, group) {
                let ghost so_far = out@;
                let ghost lines = task_lines(section(self@.take(i as int), wanted));
                out.append("- ");
                out.append(if task.completed { "[x]" } else { "[ ]" });
                out.append(" ");
                out.append(task.description.as_str());
                out.append("\n");
                proof {
                    assert(out@ == so_far + task_line(task@));
                    assert(section(self@.take(i + 1), wanted).drop_last() == section(
                        self@.take(i as int),
                        wanted,
                    ));
                    assert(start + lines + task_line(task@) == start + (lines + task_line(task@)));
                }
                n += 1;
            }
            i += 1;
        }
        assert(self@.take(i as int) == self@);
        n
    }

    /// The markdown text of the list.
    pub fn to_markdown(&self) -> (r: String)
        ensures
            r@ == markdown(self@),
    {
        let mut content = String::new();
        content.append("# Hardly Working TODO List\n\n");
        let loose = self.write_section(&mut content, None);
        if loose > 0 {
            content.append("\n");
        }
        assert(content@ == title() + loose_text(self@)) by {
            assert(Seq::<char>::empty() + title() == title());
            assert(title() + Seq::<char>::empty() == title());
            assert(title() + task_lines(section(self@, None)) + "\n"@ == title() + (task_lines(
                section(self@, None),
            ) + "\n"@));
        }
        let names = self.group_names();
        let ghost head = content@;
        let mut k: usize = 0;
        proof {
            assert(names.deep_view().take(0) == Seq::<Seq<char>>::empty());
            assert(head + Seq::<char>::empty() == head);
        }
        while k < names.len()
            invariant
                k <= names.len(),
                names.deep_view() == group_names(self@),
                content@ == head + sections_text(self@, names.deep_view().take(k as int)),
            decreases names.len() - k,
        {
            let name = &names[k];
            let ghost so_far = content@;
            let ghost done = sections_text(self@, names.deep_view().take(k as int));
            content.append("## ");
            content.append(name.as_str());
            content.append("\n");
            self.write_section(&mut content, Some(name));
            content.append("\n");
            proof {
                assert(names.deep_view().take(k + 1).drop_last() == names.deep_view().take(k as int));
                assert(names.deep_view().take(k + 1).last() == name@);
                assert(content@ == so_far + section_text(self@, name@));
                assert(head + done + section_text(self@, name@) == head + (done + section_text(
                    self@,
                    name@,
                )));
            }
            k += 1;
        }
        assert(names.deep_view().take(k as int) == names.deep_view());
        content
    }
}

/// What one line of a stored list says.
#[derive(Debug, PartialEq, Eq)]
pub enum Line {
    /// Nothing but white space.
    Blank,
    /// The title of the document.
    Title,
    /// The heading of a group: the tasks below it belong to that group.
    Heading(String),
    /// A task.
    Item { completed: bool, description: String },
    /// Anything else: passed over.
    Other,
}

/// What a line says, as plain values.
pub enum LineView {
    Blank,
    Title,
    Heading(Seq<char>),
    Item { completed: bool, description: Seq<char> },
    Other,
}

impl View for Line {
    type V = LineView;

    open spec fn view(&self) -> LineView {
        match self {
            Line::Blank => LineView::Blank,
            Line::Title => LineView::Title,
            Line::Heading(name) => LineView::Heading(name@),
            Line::Item { completed, description } => LineView::Item {
                completed: *completed,
                description: description@,
            },
            Line::Other => LineView::Other,
        }
    }
}

/// Where the description begins in the task line `line`: behind the
/// bracket that closes the box, where that bracket is in its place as the
/// fifth character, and behind the sixth character of the line otherwise.
pub open spec fn description_start(line: Seq<char>) -> int {
    if line[4] == ']' {
        5
    } else {
        6
    }
}

/// What the line `raw` says. White space around the line does not count.
/// A line that begins with `# ` is the title. One that begins with `## `
/// is a heading, and the rest of it, trimmed, the name of the group. One
/// that begins with `- [` and has at least four more characters is a task:
/// completed if the character behind `- [` is `x`, and described by what
/// follows the closing bracket, trimmed.
pub open spec fn line_of(raw: Seq<char>) -> LineView {
    let line = trim(raw);
    if line.len() == 0 {
        LineView::Blank
    } else if starts_with(line, "# "@) {
        LineView::Title
    } else if starts_with(line, "## "@) {
        LineView::Heading(trim(line.skip(3)))
    } else if starts_with(line, "- ["@) && line.len() > 6 {
        LineView::Item {
            completed: line[3] == 'x',
            description: trim(line.skip(description_start(line))),
        }
    } else {
        LineView::Other
    }
}

/// The length of the first line of `text`: the number of characters before
/// its first line feed.
pub open spec fn line_end(text: Seq<char>) -> nat
    decreases text.len(),
{
    if text.len() == 0 || text[0] == '\n' {
        0
    } else {
        1 + line_end(text.drop_first())
    }
}

/// The lines of `text`, without the line feeds that end them. A line feed
/// at the very end of the text begins no further line.
pub open spec fn lines(text: Seq<char>) -> Seq<Seq<char>>
    decreases text.len(),
{
    if text.len() == 0 {
        Seq::empty()
    } else {
        let n = line_end(text) as int;
        if n < text.len() {
            seq![text.take(n)] + lines(text.skip(n + 1))
        } else {
            seq![text]
        }
    }
}

/// The tasks that `lines` hold, where `group` is the group in force before
/// the first of them: a heading puts its group in force for the tasks
/// below it, up to the next heading.
pub open spec fn tasks_of(lines: Seq<Seq<char>>, group: Option<Seq<char>>) -> Seq<TaskView>
    decreases lines.len(),
{
    if lines.len() == 0 {
        Seq::empty()
    } else {
        match line_of(lines[0]) {
            LineView::Heading(name) => tasks_of(lines.drop_first(), Some(name)),
            LineView::Item { completed, description } => seq![
                TaskView { description, completed, group },
            ] + tasks_of(lines.drop_first(), group),
            _ => tasks_of(lines.drop_first(), group),
        }
    }
}

/// The list that a markdown text holds.
pub open spec fn parsed(text: Seq<char>) -> Seq<TaskView> {
    tasks_of(lines(text), None)
}

/// Where the line that begins at `start` ends.
fn line_end_from(chars: &Vec<char>, start: usize) -> (end: usize)
    requires
        start <= chars.len(),
    ensures
        start <= end <= chars.len(),
        end - start == line_end(chars@.skip(start as int)),
{
    let mut end: usize = start;
    while end < chars.len() && chars[end] != '\n'
        invariant
            start <= end <= chars.len(),
            line_end(chars@.skip(start as int)) == (end - start) + line_end(
                chars@.skip(end as int),
            ),
        decreases chars.len() - end,
    {
        assert(chars@.skip(end as int).drop_first() == chars@.skip(end + 1));
        end += 1;
    }
    end
}

/// What the line `chars[from..to]` says.
fn read_range(chars: &Vec<char>, from: usize, to: usize) -> (r: Line)
    requires
        from <= to <= chars.len(),
    ensures
        r@ == line_of(chars@.subrange(from as int, to as int)),
{
    let (a, b) = trim_range(chars, from, to);
    let ghost line = chars@.subrange(a as int, b as int);
    if a == b {
        return Line::Blank;
    }
    if range_starts_with(chars, a, b, &chars_of("# ")) {
        return Line::Title;
    }
    if range_starts_with(chars, a, b, &chars_of("## ")) {
        proof {
            reveal_strlit("## ");
            assert(line.skip(3) == chars@.subrange(a + 3, b as int));
        }
        let (c, d) = trim_range(chars, a + 3, b);
        return Line::Heading(string_of(chars, c, d));
    }
    if range_starts_with(chars, a, b, &chars_of("- [")) && b - a > 6 {
        let completed = chars[a + 3] == 'x';
        let start: usize = if chars[a + 4] == ']' {
            a + 5
        } else {
            a + 6
        };
        proof {
            assert(line.skip(start - a) == chars@.subrange(start as int, b as int));
        }
        let (c, d) = trim_range(chars, start, b);
        return Line::Item { completed, description: string_of(chars, c, d) };
    }
    Line::Other
}

/// What one line of a stored list says.
pub fn read_line(raw: &str) -> (r: Line)
    ensures
        r@ == line_of(raw@),
{
    let chars = chars_of(raw);
    assert(chars@.subrange(0, chars.len() as int) == chars@);
    read_range(&chars, 0, chars.len())
}

impl TodoList {
    /// The list to work with, given what the file of the list holds, or
    /// `None` where that file is missing or cannot be read: a missing file
    /// is an empty list.
    pub fn load(contents: Option<&str>) -> (r: Self)
        ensures
            r@ == (match contents {
                Some(text) => parsed(text@),
                None => Seq::empty(),
            }),
    {
        match contents {
            Some(text) => TodoList::from_markdown(text),
            None => TodoList::new(),
        }
    }

    /// The list that a markdown text holds. Reading never fails: a line
    /// that is neither a heading nor a task adds nothing.
    pub fn from_markdown(content: &str) -> (r: Self)
        ensures
            r@ == parsed(content@),
    {
        let chars = chars_of(content);
        let mut list = TodoList::new();
        let mut group: Option<String> = None;
        let mut start: usize = 0;
        proof {
            assert(chars@.skip(0) == chars@);
            assert(Seq::<TaskView>::empty() + parsed(content@) == parsed(content@));
        }
        while start < chars.len()
            invariant
                start <= chars.len(),
                chars@ == content@,
                parsed(content@) == list@ + tasks_of(
                    lines(chars@.skip(start as int)),
                    group.deep_view(),
                ),
            decreases chars.len() - start,
        {
            let ghost rest = chars@.skip(start as int);
            let ghost before = list@;
            let ghost in_force: Option<Seq<char>> = group.deep_view();
            let end = line_end_from(&chars, start);
            let next: usize = if end < chars.len() {
                end + 1
            } else {
                end
            };
            proof {
                assert(rest.take(end - start) == chars@.subrange(start as int, end as int));
                assert(lines(rest)[0] == chars@.subrange(start as int, end as int));
                assert(lines(rest).drop_first() == lines(chars@.skip(next as int))) by {
                    if end < chars.len() {
                        assert(rest.skip(end - start + 1) == chars@.skip(next as int));
                    } else {
                        assert(rest.take(end - start) == rest);
                        assert(lines(chars@.skip(next as int)) == Seq::<Seq<char>>::empty());
                    }
                }
            }
            match read_range(&chars, start, end) {
                Line::Heading(name) => {
                    group = Some(name);
                },
                Line::Item { completed, description } => {
                    let own = match &group {
                        Some(name) => Some(name.clone()),
                        None => None,
                    };
                    list.tasks.push(Task { description, completed, group: own });
                    proof {
                        let task = TaskView { description: description@, completed, group: in_force };
                        assert(list@ == before.push(task));
                        assert(before.push(task) + tasks_of(lines(chars@.skip(next as int)), in_force)
                            == before + (seq![task] + tasks_of(
                            lines(chars@.skip(next as int)),
                            in_force,
                        )));
                    }
                },
                _ => {},
            }
            start = next;
        }
        proof {
            assert(chars@.skip(start as int) == Seq::<char>::empty());
            assert(list@ + Seq::<TaskView>::empty() == list@);
        }
        list
    }
}

} // verus!
