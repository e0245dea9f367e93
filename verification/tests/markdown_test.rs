use hardly_working::markdown::{read_line, Line};
use hardly_working::task::{Task, TodoList};

fn facts(list: &TodoList) -> Vec<(String, bool, Option<String>)> {
    list.tasks
        .iter()
        .map(|t: &Task| (t.description.clone(), t.completed, t.group.clone()))
        .collect()
}

fn fact(description: &str, completed: bool, group: Option<&str>) -> (String, bool, Option<String>) {
    (description.to_string(), completed, group.map(str::to_string))
}

#[test]
fn empty_list_is_the_title_alone() {
    assert_eq!(TodoList::new().to_markdown(), "# Hardly Working TODO List\n\n");
}

#[test]
fn ungrouped_tasks_follow_the_title() {
    let mut todo = TodoList::new();
    todo.add_task("Buy milk".to_string(), None);
    todo.add_task("Walk dog".to_string(), None);
    todo.toggle_task(2).unwrap();
    assert_eq!(
        todo.to_markdown(),
        "# Hardly Working TODO List\n\n- [ ] Buy milk\n- [x] Walk dog\n\n"
    );
}

#[test]
fn groups_come_sorted_after_the_ungrouped() {
    let mut todo = TodoList::new();
    todo.add_task("g1".to_string(), Some("Gamma".to_string()));
    todo.add_task("loose".to_string(), None);
    todo.add_task("a1".to_string(), Some("Alpha".to_string()));
    todo.add_task("b1".to_string(), Some("Beta".to_string()));
    todo.add_task("g2".to_string(), Some("Gamma".to_string()));
    todo.add_task("a2".to_string(), Some("Alpha".to_string()));
    todo.toggle_task(5).unwrap();
    assert_eq!(
        todo.to_markdown(),
        "# Hardly Working TODO List\n\n\
         - [ ] loose\n\n\
         ## Alpha\n- [ ] a1\n- [ ] a2\n\n\
         ## Beta\n- [ ] b1\n\n\
         ## Gamma\n- [ ] g1\n- [x] g2\n\n"
    );
}

#[test]
fn grouped_only_list_has_no_loose_part() {
    let mut todo = TodoList::new();
    todo.add_task("Y".to_string(), Some("G".to_string()));
    assert_eq!(
        todo.to_markdown(),
        "# Hardly Working TODO List\n\n## G\n- [ ] Y\n\n"
    );
}

#[test]
fn group_names_sort_by_character_code() {
    let mut todo = TodoList::new();
    for name in ["b", "B", "a", "Z", "été", "ab", "a"] {
        todo.add_task("t".to_string(), Some(name.to_string()));
    }
    assert_eq!(todo.group_names(), vec!["B", "Z", "a", "ab", "b", "été"]);
}

#[test]
fn group_names_of_empty_and_ungrouped_lists() {
    assert!(TodoList::new().group_names().is_empty());
    let mut todo = TodoList::new();
    todo.add_task("t".to_string(), None);
    assert!(todo.group_names().is_empty());
}

#[test]
fn decode_reads_title_groups_and_tasks() {
    let text = "# Hardly Working TODO List\n\n- [ ] one\n- [x] two\n\n## Home\n\n- [x] three\n\n## Work\n\n- [ ] four\n\n";
    let todo = TodoList::from_markdown(text);
    assert_eq!(
        facts(&todo),
        vec![
            fact("one", false, None),
            fact("two", true, None),
            fact("three", true, Some("Home")),
            fact("four", false, Some("Work")),
        ]
    );
}

#[test]
fn decode_of_empty_text_is_empty() {
    assert!(TodoList::from_markdown("").tasks.is_empty());
    assert!(TodoList::from_markdown("\n\n\n").tasks.is_empty());
    assert!(TodoList::from_markdown("# Hardly Working TODO List\n\n").tasks.is_empty());
}

#[test]
fn decode_passes_over_what_it_does_not_know() {
    let text = "intro\n* [ ] star\n-[ ] tight\n- [ ] kept\n> quote\n### deep\n- [x] also kept";
    let todo = TodoList::from_markdown(text);
    assert_eq!(
        facts(&todo),
        vec![fact("kept", false, None), fact("also kept", true, None)]
    );
}

#[test]
fn decode_needs_four_characters_behind_the_bracket() {
    assert!(TodoList::from_markdown("- [").tasks.is_empty());
    assert!(TodoList::from_markdown("- [x]").tasks.is_empty());
    assert!(TodoList::from_markdown("- [x] ").tasks.is_empty());
    assert!(TodoList::from_markdown("- [ ]  \t ").tasks.is_empty());
    assert_eq!(
        facts(&TodoList::from_markdown("- [x] a")),
        vec![fact("a", true, None)]
    );
    assert!(TodoList::from_markdown("- [x]a").tasks.is_empty());
    assert_eq!(
        facts(&TodoList::from_markdown("- [x]ab")),
        vec![fact("ab", true, None)]
    );
}

#[test]
fn decode_takes_only_x_as_completed() {
    let todo = TodoList::from_markdown("- [x] a\n- [X] b\n- [ ] c\n- [-] d\n- [é] e\n");
    let done: Vec<bool> = todo.tasks.iter().map(|t| t.completed).collect();
    assert_eq!(done, vec![true, false, false, false, false]);
    assert_eq!(todo.tasks[4].description, "e");
}

#[test]
fn decode_trims_lines_names_and_descriptions() {
    let text = "   ##    Errands   \r\n\t- [ ]    post letter  \r\n";
    let todo = TodoList::from_markdown(text);
    assert_eq!(facts(&todo), vec![fact("post letter", false, Some("Errands"))]);
}

#[test]
fn decode_heading_holds_until_the_next() {
    let text = "- [ ] a\n## One\n- [ ] b\nnoise\n\n- [ ] c\n## Two\n## Three\n- [ ] d\n# Title again\n- [ ] e\n";
    let todo = TodoList::from_markdown(text);
    assert_eq!(
        facts(&todo),
        vec![
            fact("a", false, None),
            fact("b", false, Some("One")),
            fact("c", false, Some("One")),
            fact("d", false, Some("Three")),
            fact("e", false, Some("Three")),
        ]
    );
}

#[test]
fn decode_heading_without_a_name() {
    let todo = TodoList::from_markdown("## G\n##\n- [ ] a\n##  \n- [ ] b\n## \u{a0}x\n- [ ] c\n");
    assert_eq!(
        facts(&todo),
        vec![
            fact("a", false, Some("G")),
            fact("b", false, Some("G")),
            fact("c", false, Some("x")),
        ]
    );
}

#[test]
fn decode_counts_characters_not_bytes() {
    let todo = TodoList::from_markdown("## Études\n- [x] été à Paris\n- [ ] ß\n");
    assert_eq!(
        facts(&todo),
        vec![
            fact("été à Paris", true, Some("Études")),
            fact("ß", false, Some("Études")),
        ]
    );
}

#[test]
fn read_line_tells_the_kinds_apart() {
    assert_eq!(read_line(""), Line::Blank);
    assert_eq!(read_line(" \t "), Line::Blank);
    assert_eq!(read_line("# Hardly Working TODO List"), Line::Title);
    assert_eq!(read_line("# "), Line::Other);
    assert_eq!(read_line("#"), Line::Other);
    assert_eq!(read_line("# x"), Line::Title);
    assert_eq!(read_line("## Alpha"), Line::Heading("Alpha".to_string()));
    assert_eq!(read_line("  ##   Alpha  Beta "), Line::Heading("Alpha  Beta".to_string()));
    assert_eq!(read_line("##Alpha"), Line::Other);
    assert_eq!(read_line("### Alpha"), Line::Other);
    assert_eq!(
        read_line("- [x] done"),
        Line::Item { completed: true, description: "done".to_string() }
    );
    assert_eq!(
        read_line("- [ ] open"),
        Line::Item { completed: false, description: "open".to_string() }
    );
    assert_eq!(read_line("- [ ]"), Line::Other);
    assert_eq!(read_line("- item"), Line::Other);
    assert_eq!(read_line("plain words"), Line::Other);
}

#[test]
fn round_trip_one_ungrouped_one_grouped() {
    let mut todo = TodoList::new();
    todo.add_task("X".to_string(), None);
    todo.add_task("Y".to_string(), Some("G".to_string()));
    let back = TodoList::from_markdown(&todo.to_markdown());
    assert_eq!(facts(&back), vec![fact("X", false, None), fact("Y", false, Some("G"))]);
    let mut probe = back;
    assert!(probe.toggle_task(1).is_ok());
    assert!(probe.tasks[0].completed);
    assert_eq!(probe.tasks[0].description, "X");
    assert!(probe.toggle_task(2).is_ok());
    assert_eq!(probe.tasks[1].description, "Y");
    assert!(probe.toggle_task(3).is_err());
}

#[test]
fn round_trip_gives_the_layout_order() {
    let mut todo = TodoList::new();
    todo.add_task("g1".to_string(), Some("Gamma".to_string()));
    todo.add_task("loose 1".to_string(), None);
    todo.add_task("a1".to_string(), Some("Alpha".to_string()));
    todo.add_task("g2".to_string(), Some("Gamma".to_string()));
    todo.add_task("loose 2".to_string(), None);
    todo.toggle_task(4).unwrap();
    todo.toggle_task(5).unwrap();
    let text = todo.to_markdown();
    let back = TodoList::from_markdown(&text);
    assert_eq!(
        facts(&back),
        vec![
            fact("loose 1", false, None),
            fact("loose 2", true, None),
            fact("a1", false, Some("Alpha")),
            fact("g1", false, Some("Gamma")),
            fact("g2", true, Some("Gamma")),
        ]
    );
    // once in layout order, a list is stable under writing and reading
    assert_eq!(back.to_markdown(), text);
}

#[test]
fn round_trip_loses_what_a_line_cannot_hold() {
    let mut todo = TodoList::new();
    todo.add_task("  padded  ".to_string(), None);
    todo.add_task("".to_string(), None);
    todo.add_task("two\nlines".to_string(), None);
    let back = TodoList::from_markdown(&todo.to_markdown());
    assert_eq!(
        facts(&back),
        vec![fact("padded", false, None), fact("two", false, None)]
    );
}

#[test]
fn load_reads_the_text_or_starts_empty() {
    assert!(TodoList::load(None).tasks.is_empty());
    assert!(TodoList::load(Some("")).tasks.is_empty());
    let todo = TodoList::load(Some("## G\n- [x] a\n"));
    assert_eq!(facts(&todo), vec![fact("a", true, Some("G"))]);
}

/// Reads `text` with the standard library's own line splitting and trimming.
fn read_with_std(text: &str) -> Vec<(String, bool, Option<String>)> {
    let mut tasks = Vec::new();
    let mut group: Option<String> = None;
    for line in text.lines() {
        let line: Vec<char> = line.trim().chars().collect();
        let rest = |from: usize| line[from..].iter().collect::<String>().trim().to_string();
        if line.is_empty() || line.starts_with(&['#', ' ']) {
            continue;
        }
        if line.starts_with(&['#', '#', ' ']) {
            group = Some(rest(3));
        } else if line.starts_with(&['-', ' ', '[']) && line.len() > 6 {
            let behind_the_box = if line[4] == ']' { 5 } else { 6 };
            tasks.push((rest(behind_the_box), line[3] == 'x', group.clone()));
        }
    }
    tasks
}

/// Writes `tasks` by collecting them under their groups in a sorted map.
fn write_with_std(tasks: &[(String, bool, Option<String>)]) -> String {
    let mut by_group: std::collections::BTreeMap<Option<&str>, Vec<String>> =
        std::collections::BTreeMap::new();
    for (description, completed, group) in tasks {
        let mark = if *completed { "[x]" } else { "[ ]" };
        by_group
            .entry(group.as_deref())
            .or_default()
            .push(format!("- {} {}\n", mark, description));
    }
    let mut out = String::from("# Hardly Working TODO List\n\n");
    for (group, lines) in by_group {
        if let Some(name) = group {
            out.push_str(&format!("## {}\n", name));
        }
        out.push_str(&lines.concat());
        out.push('\n');
    }
    out
}

struct Dice(u64);

impl Dice {
    fn roll(&mut self, sides: usize) -> usize {
        self.0 = self.0.wrapping_mul(6364136223846793005).wrapping_add(1442695040888963407);
        ((self.0 >> 33) as usize) % sides
    }
}

#[test]
fn decode_agrees_with_std_line_reading() {
    let pieces = [
        "- [x] a", "- [ ] b", "- [", "- [x]", "- [x]ab", "- [xy", "- [xyz] c", "## G", "##", "## ",
        "# T", "#", " ", "\t", "\r",
        "x", "- [X] c d ", "  ## H  ", "-", "[", "]", "é", "\u{a0}", "####", "- [ ]  ",
    ];
    let joints = ["\n", "\r\n", "", " ", "\n\n"];
    let mut dice = Dice(7);
    for _ in 0..3000 {
        let mut text = String::new();
        for _ in 0..dice.roll(9) {
            text.push_str(pieces[dice.roll(pieces.len())]);
            text.push_str(joints[dice.roll(joints.len())]);
        }
        assert_eq!(facts(&TodoList::from_markdown(&text)), read_with_std(&text), "{:?}", text);
    }
}

#[test]
fn encode_agrees_with_a_sorted_map() {
    let names = ["b", "a", "B", "ab", "", "é", "a b"];
    let words = ["x", "task", "", "two words", " lead", "- [x] y", "## z"];
    let mut dice = Dice(11);
    for _ in 0..2000 {
        let mut todo = TodoList::new();
        for _ in 0..dice.roll(8) {
            let group = match dice.roll(names.len() + 2) {
                n if n < names.len() => Some(names[n].to_string()),
                _ => None,
            };
            todo.add_task(words[dice.roll(words.len())].to_string(), group);
            if dice.roll(2) == 1 {
                todo.toggle_task(todo.tasks.len()).unwrap();
            }
        }
        assert_eq!(todo.to_markdown(), write_with_std(&facts(&todo)));
    }
}

#[test]
fn round_trip_of_plain_texts_gives_the_layout() {
    let names = ["b", "a", "B", "ab", "é", "a b", "#", "- [x]"];
    let words = ["x", "task", "two words", "- [x] y", "## z", "# t", "ü"];
    let mut dice = Dice(13);
    for _ in 0..2000 {
        let mut todo = TodoList::new();
        for _ in 0..dice.roll(8) {
            let group = match dice.roll(names.len() + 2) {
                n if n < names.len() => Some(names[n].to_string()),
                _ => None,
            };
            todo.add_task(words[dice.roll(words.len())].to_string(), group);
            if dice.roll(2) == 1 {
                todo.toggle_task(todo.tasks.len()).unwrap();
            }
        }
        let mut layout: Vec<(String, bool, Option<String>)> = facts(&todo);
        // a stable sort by group is the layout: no group first, then by name
        layout.sort_by(|a, b| a.2.cmp(&b.2));
        let back = TodoList::from_markdown(&todo.to_markdown());
        assert_eq!(facts(&back), layout);
    }
}

#[test]
fn heading_stands_directly_above_its_tasks() {
    let mut todo = TodoList::new();
    todo.add_task("X".to_string(), None);
    todo.add_task("Y".to_string(), Some("G".to_string()));
    let text = todo.to_markdown();
    assert_eq!(text, "# Hardly Working TODO List\n\n- [ ] X\n\n## G\n- [ ] Y\n\n");
}

#[test]
fn description_follows_the_closing_bracket() {
    let text = "- [x] spaced\n- [ ]tight\n- [x]\twith tab\n- [xy] late bracket\n- [xyz] no bracket in place\n- [ no bracket\n";
    let todo = TodoList::from_markdown(text);
    assert_eq!(
        facts(&todo),
        vec![
            fact("spaced", true, None),
            fact("tight", false, None),
            fact("with tab", true, None),
            fact("late bracket", true, None),
            fact("] no bracket in place", true, None),
            fact("bracket", false, None),
        ]
    );
}
