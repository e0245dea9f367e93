use hardly_working::task::TodoList;

fn sample() -> TodoList {
    let mut todo = TodoList::new();
    todo.add_task("Write report".to_string(), Some("Work".to_string()));
    todo.add_task("Buy milk".to_string(), None);
    todo.add_task("Call plumber".to_string(), Some("Home".to_string()));
    todo
}

#[test]
fn new_list_is_empty() {
    let todo = TodoList::new();
    assert!(todo.tasks.is_empty());
}

#[test]
fn add_to_empty_list_gives_task_one() {
    let mut todo = TodoList::new();
    todo.add_task("Buy milk".to_string(), None);
    assert_eq!(todo.tasks.len(), 1);
    assert_eq!(todo.tasks[0].description, "Buy milk");
    assert!(!todo.tasks[0].completed);
    assert_eq!(todo.tasks[0].group, None);
    assert!(todo.toggle_task(1).is_ok());
}

#[test]
fn add_appends_at_the_end_and_keeps_the_group() {
    let todo = sample();
    assert_eq!(todo.tasks.len(), 3);
    assert_eq!(todo.tasks[0].description, "Write report");
    assert_eq!(todo.tasks[0].group, Some("Work".to_string()));
    assert_eq!(todo.tasks[2].description, "Call plumber");
    assert_eq!(todo.tasks[2].group, Some("Home".to_string()));
    assert!(todo.tasks.iter().all(|t| !t.completed));
}

#[test]
fn toggle_twice_restores_completion() {
    let mut todo = sample();
    for id in 1..=3 {
        let before = todo.tasks[id - 1].completed;
        todo.toggle_task(id).unwrap();
        assert_eq!(todo.tasks[id - 1].completed, !before);
        todo.toggle_task(id).unwrap();
        assert_eq!(todo.tasks[id - 1].completed, before);
    }
}

#[test]
fn toggle_touches_one_task_only() {
    let mut todo = sample();
    todo.toggle_task(2).unwrap();
    assert!(!todo.tasks[0].completed);
    assert!(todo.tasks[1].completed);
    assert!(!todo.tasks[2].completed);
    assert_eq!(todo.tasks[1].description, "Buy milk");
    assert_eq!(todo.tasks[1].group, None);
}

#[test]
fn toggle_zero_and_past_the_end_fail() {
    let mut todo = sample();
    assert_eq!(todo.toggle_task(0).unwrap_err(), "Task 0 does not exist");
    assert_eq!(todo.toggle_task(4).unwrap_err(), "Task 4 does not exist");
    assert!(todo.tasks.iter().all(|t| !t.completed));
    assert_eq!(todo.tasks.len(), 3);

    let mut empty = TodoList::new();
    assert_eq!(empty.toggle_task(0).unwrap_err(), "Task 0 does not exist");
    assert_eq!(empty.toggle_task(1).unwrap_err(), "Task 1 does not exist");
}

#[test]
fn error_names_the_identifier_in_decimal() {
    let mut todo = TodoList::new();
    assert_eq!(todo.remove_task(10).unwrap_err(), "Task 10 does not exist");
    assert_eq!(todo.edit_task(907, String::new()).unwrap_err(), "Task 907 does not exist");
    assert_eq!(
        todo.toggle_task(usize::MAX).unwrap_err(),
        format!("Task {} does not exist", usize::MAX)
    );
}

#[test]
fn remove_shifts_later_tasks_down() {
    let mut todo = sample();
    todo.remove_task(1).unwrap();
    assert_eq!(todo.tasks.len(), 2);
    assert_eq!(todo.tasks[0].description, "Buy milk");
    assert_eq!(todo.tasks[1].description, "Call plumber");
    // the same identifier now names the task that followed
    todo.edit_task(1, "Buy oat milk".to_string()).unwrap();
    assert_eq!(todo.tasks[0].description, "Buy oat milk");
}

#[test]
fn remove_last_leaves_the_identifier_unused() {
    let mut todo = sample();
    todo.remove_task(3).unwrap();
    assert_eq!(todo.tasks.len(), 2);
    assert_eq!(todo.tasks[0].description, "Write report");
    assert_eq!(todo.tasks[1].description, "Buy milk");
    assert_eq!(todo.toggle_task(3).unwrap_err(), "Task 3 does not exist");
    assert_eq!(todo.remove_task(3).unwrap_err(), "Task 3 does not exist");
    assert_eq!(todo.remove_task(0).unwrap_err(), "Task 0 does not exist");
    assert_eq!(todo.tasks.len(), 2);
}

#[test]
fn edit_keeps_group_and_completion() {
    let mut todo = sample();
    todo.toggle_task(1).unwrap();
    todo.edit_task(1, "Write the report".to_string()).unwrap();
    assert_eq!(todo.tasks[0].description, "Write the report");
    assert!(todo.tasks[0].completed);
    assert_eq!(todo.tasks[0].group, Some("Work".to_string()));
    assert_eq!(todo.tasks[1].description, "Buy milk");
}

#[test]
fn edit_out_of_range_changes_nothing() {
    let mut todo = sample();
    assert_eq!(
        todo.edit_task(0, "x".to_string()).unwrap_err(),
        "Task 0 does not exist"
    );
    assert_eq!(
        todo.edit_task(4, "x".to_string()).unwrap_err(),
        "Task 4 does not exist"
    );
    assert_eq!(todo.tasks[0].description, "Write report");
    assert_eq!(todo.tasks[2].description, "Call plumber");
}

#[test]
fn clear_removes_all_and_only_completed() {
    let mut todo = TodoList::new();
    todo.add_task("A".to_string(), None);
    todo.add_task("B".to_string(), None);
    todo.toggle_task(2).unwrap();
    todo.clear();
    assert_eq!(todo.tasks.len(), 1);
    assert_eq!(todo.tasks[0].description, "A");
    assert!(!todo.tasks[0].completed);
    assert!(todo.toggle_task(1).is_ok());
    assert!(todo.toggle_task(2).is_err());
}

#[test]
fn clear_keeps_order_and_is_idempotent() {
    let mut todo = TodoList::new();
    for name in ["a", "b", "c", "d", "e", "f"] {
        todo.add_task(name.to_string(), Some("g".to_string()));
    }
    todo.toggle_task(1).unwrap();
    todo.toggle_task(2).unwrap();
    todo.toggle_task(4).unwrap();
    todo.toggle_task(6).unwrap();
    todo.clear();
    let left: Vec<&str> = todo.tasks.iter().map(|t| t.description.as_str()).collect();
    assert_eq!(left, vec!["c", "e"]);
    assert!(todo.tasks.iter().all(|t| t.group.as_deref() == Some("g")));
    todo.clear();
    let again: Vec<&str> = todo.tasks.iter().map(|t| t.description.as_str()).collect();
    assert_eq!(again, vec!["c", "e"]);
}

#[test]
fn clear_of_all_completed_empties_the_list() {
    let mut todo = sample();
    for id in 1..=3 {
        todo.toggle_task(id).unwrap();
    }
    todo.clear();
    assert!(todo.tasks.is_empty());
}

#[test]
fn search_gives_position_and_task_in_list_order() {
    let mut todo = TodoList::new();
    todo.add_task("Wash dishes".to_string(), None);
    todo.add_task("Read".to_string(), None);
    todo.add_task("wash car".to_string(), Some("Sat".to_string()));
    todo.add_task("Car WASH voucher".to_string(), None);
    let results = todo.search_tasks("Wash");
    let positions: Vec<usize> = results.iter().map(|r| r.0).collect();
    assert_eq!(positions, vec![1, 3, 4]);
    assert_eq!(results[1].1.description, "wash car");
    assert_eq!(results[2].1.description, "Car WASH voucher");
}

#[test]
fn search_empty_text_gives_every_task_in_order() {
    let todo = sample();
    let results = todo.search_tasks("");
    let positions: Vec<usize> = results.iter().map(|r| r.0).collect();
    assert_eq!(positions, vec![1, 2, 3]);
    assert_eq!(results[2].1.description, "Call plumber");
    assert!(TodoList::new().search_tasks("").is_empty());
}

#[test]
fn search_does_not_look_at_groups() {
    let todo = sample();
    assert!(todo.search_tasks("Work").is_empty());
    assert!(todo.search_tasks("home").is_empty());
    assert_eq!(todo.search_tasks("plumb").len(), 1);
}

#[test]
fn search_matches_anywhere_in_the_description() {
    let todo = sample();
    assert_eq!(todo.search_tasks("REPORT")[0].0, 1);
    assert_eq!(todo.search_tasks("y M")[0].0, 2);
    assert_eq!(todo.search_tasks("r").len(), 2);
    assert!(todo.search_tasks("Buy milk now").is_empty());
}

#[test]
fn search_folds_case_beyond_ascii() {
    let mut todo = TodoList::new();
    todo.add_task("Übung machen".to_string(), None);
    todo.add_task("ΛΟΓΟΣ".to_string(), None);
    assert_eq!(todo.search_tasks("übung").len(), 1);
    assert_eq!(todo.search_tasks("ÜBUNG").len(), 1);
    assert_eq!(todo.search_tasks("λογ")[0].0, 2);
}

#[test]
fn search_position_is_the_identifier_that_the_operations_take() {
    let mut todo = TodoList::new();
    todo.add_task("Buy apples".to_string(), None);
    todo.add_task("Clean kitchen".to_string(), None);
    let position = {
        let results = todo.search_tasks("clean");
        assert_eq!(results.len(), 1);
        assert_eq!(results[0].1.description, "Clean kitchen");
        assert_eq!(results[0].0, 2);
        results[0].0
    };
    todo.toggle_task(position).unwrap();
    assert!(!todo.tasks[0].completed);
    assert!(todo.tasks[1].completed);
    todo.remove_task(position).unwrap();
    assert_eq!(todo.tasks.len(), 1);
    assert_eq!(todo.search_tasks("apples")[0].0, 1);
}

#[test]
fn search_is_blind_to_ascii_case() {
    let mut todo = TodoList::new();
    for description in [
        "Wash Dishes", "wash the car", "WASHING", "Read", "x-RAY wash", "Été WaSh", "ΛΟΓΟΣ wash",
        "was h", "",
    ] {
        todo.add_task(description.to_string(), None);
    }
    for text in ["wash", "WASH", "Wash", "wAsH", "sh d", "X-ray", "é w", "", " ", "ash"] {
        let positions: Vec<usize> = todo.search_tasks(text).iter().map(|r| r.0).collect();
        let upper: Vec<usize> =
            todo.search_tasks(&text.to_ascii_uppercase()).iter().map(|r| r.0).collect();
        let lower: Vec<usize> =
            todo.search_tasks(&text.to_ascii_lowercase()).iter().map(|r| r.0).collect();
        assert_eq!(upper, positions, "{:?}", text);
        assert_eq!(lower, positions, "{:?}", text);
    }
    let wash: Vec<usize> = todo.search_tasks("WASH").iter().map(|r| r.0).collect();
    assert_eq!(wash, vec![1, 2, 3, 5, 6, 7]);
}

#[test]
fn search_agrees_with_lowercase_forms_of_std() {
    let texts = [
        "", "a", "A", "Wash", "ΑΣ", "ΑΣ a", "aΣ", "AΣ", "AΣB", "ΣA", "Σ", "σ", "ς", "İstanbul",
        "i̇", "ǅ", "ß", "SS", "Straße", "É", "é", "DŽ", "a.Σ", "A.Σ.", "ΟΔΥΣΣΕΥΣ", "οδυσσευς",
    ];
    let mut todo = TodoList::new();
    for description in texts {
        todo.add_task(description.to_string(), None);
    }
    for text in texts {
        let positions: Vec<usize> = todo.search_tasks(text).iter().map(|r| r.0).collect();
        let expected: Vec<usize> = texts
            .iter()
            .enumerate()
            .filter(|(_, d)| d.to_lowercase().contains(&text.to_lowercase()))
            .map(|(i, _)| i + 1)
            .collect();
        assert_eq!(positions, expected, "{:?}", text);
    }
}
