//! The commands, and what each of them does to a list.

use crate::task::{
    edited, found, not_found, pending, toggled, valid_id, with_task, without, TaskView, TodoList,
};
use vstd::prelude::*;

verus! {

/// What the command line asks for: one command, or nothing.
pub struct Cli {
    pub command: Option<Commands>,
}

/// The commands.
pub enum Commands {
    /// Shows where the list is kept, or keeps it elsewhere from now on.
    Config { file_path: Option<String>, show: bool },
    /// Appends a task.
    Add { group: Option<String>, description: String },
    /// Shows the list.
    List,
    /// Flips the completion of a task.
    Toggle { task_id: usize },
    /// Deletes a task.
    Remove { task_id: usize },
    /// Replaces the description of a task.
    Edit { task_id: usize, description: String },
    /// Shows the tasks whose description contains a text.
    Search { partial_description: String },
    /// Deletes the completed tasks.
    Clear,
}

/// A command, as plain values.
pub enum CommandsView {
    Config { file_path: Option<Seq<char>>, show: bool },
    Add { group: Option<Seq<char>>, description: Seq<char> },
    List,
    Toggle { task_id: int },
    Remove { task_id: int },
    Edit { task_id: int, description: Seq<char> },
    Search { partial_description: Seq<char> },
    Clear,
}

impl View for Commands {
    type V = CommandsView;

    open spec fn view(&self) -> CommandsView {
        match self {
            Commands::Config { file_path, show } => CommandsView::Config {
                file_path: file_path.deep_view(),
                show: *show,
            },
            Commands::Add { group, description } => CommandsView::Add {
                group: group.deep_view(),
                description: description@,
            },
            Commands::List => CommandsView::List,
            Commands::Toggle { task_id } => CommandsView::Toggle { task_id: *task_id as int },
            Commands::Remove { task_id } => CommandsView::Remove { task_id: *task_id as int },
            Commands::Edit { task_id, description } => CommandsView::Edit {
                task_id: *task_id as int,
                description: description@,
            },
            Commands::Search { partial_description } => CommandsView::Search {
                partial_description: partial_description@,
            },
            Commands::Clear => CommandsView::Clear,
        }
    }
}

/// What is to be shown once a command has run.
pub enum Report {
    /// Nothing.
    Silent,
    /// The whole list.
    Listing,
    /// The tasks with these identifiers.
    Matches(Vec<usize>),
    /// That no description contains this text.
    NoMatch(String),
    /// That the command failed, with the reason.
    Failed(String),
    /// Where the list is kept.
    Location,
    /// That the list is kept at this path from now on.
    Relocate(String),
    /// How to use the command `config`.
    ConfigHelp,
}

/// A report, as plain values.
pub enum ReportView {
    Silent,
    Listing,
    Matches(Seq<int>),
    NoMatch(Seq<char>),
    Failed(Seq<char>),
    Location,
    Relocate(Seq<char>),
    ConfigHelp,
}

impl View for Report {
    type V = ReportView;

    open spec fn view(&self) -> ReportView {
        match self {
            Report::Silent => ReportView::Silent,
            Report::Listing => ReportView::Listing,
            Report::Matches(ids) => ReportView::Matches(ids@.map_values(|i: usize| i as int)),
            Report::NoMatch(text) => ReportView::NoMatch(text@),
            Report::Failed(reason) => ReportView::Failed(reason@),
            Report::Location => ReportView::Location,
            Report::Relocate(path) => ReportView::Relocate(path@),
            Report::ConfigHelp => ReportView::ConfigHelp,
        }
    }
}

/// The list after `command`.
pub open spec fn after(tasks: Seq<TaskView>, command: CommandsView) -> Seq<TaskView> {
    match command {
        CommandsView::Add { group, description } => with_task(tasks, description, group),
        CommandsView::Toggle { task_id } => toggled(tasks, task_id),
        CommandsView::Remove { task_id } => without(tasks, task_id),
        CommandsView::Edit { task_id, description } => edited(tasks, task_id, description),
        CommandsView::Clear => pending(tasks),
        _ => tasks,
    }
}

/// What `command` reports when it runs on `tasks`.
pub open spec fn report_of(tasks: Seq<TaskView>, command: CommandsView) -> ReportView {
    match command {
        CommandsView::Config { file_path, show } => if show {
            ReportView::Location
        } else {
            match file_path {
                Some(path) => ReportView::Relocate(path),
                None => ReportView::ConfigHelp,
            }
        },
        CommandsView::Add { .. } => ReportView::Silent,
        CommandsView::List => ReportView::Listing,
        CommandsView::Toggle { task_id } => if valid_id(tasks, task_id) {
            ReportView::Silent
        } else {
            ReportView::Failed(not_found(task_id as nat))
        },
        CommandsView::Remove { task_id } => if valid_id(tasks, task_id) {
            ReportView::Silent
        } else {
            ReportView::Failed(not_found(task_id as nat))
        },
        CommandsView::Edit { task_id, .. } => if valid_id(tasks, task_id) {
            ReportView::Listing
        } else {
            ReportView::Failed(not_found(task_id as nat))
        },
        CommandsView::Search { partial_description } => if found(tasks, partial_description).len()
            == 0 {
            ReportView::NoMatch(partial_description)
        } else {
            ReportView::Matches(found(tasks, partial_description))
        },
        CommandsView::Clear => ReportView::Silent,
    }
}

/// The commands after which the list is written back: those that set out
/// to change it, whether or not they found their task.
pub open spec fn persists(command: CommandsView) -> bool {
    command is Add || command is Toggle || command is Remove || command is Edit || command is Clear
}

fn outcome(result: Result<(), String>, done: Report) -> (r: Report)
    ensures
        r == (match result {
            Ok(_) => done,
            Err(reason) => Report::Failed(reason),
        }),
{
    match result {
        Ok(_) => done,
        Err(reason) => Report::Failed(reason),
    }
}

impl Commands {
    /// Whether the list is to be written back after this command.
    pub fn saves(&self) -> (r: bool)
        ensures
            r == persists(self@),
    {
        match self {
            Commands::Add { .. } => true,
            Commands::Toggle { .. } => true,
            Commands::Remove { .. } => true,
            Commands::Edit { .. } => true,
            Commands::Clear => true,
            _ => false,
        }
    }

    /// Runs the command on `list` and says what is to be shown. A command
    /// that names no task leaves the list as it was and reports the
    /// failure.
    pub fn run(&self, list: &mut TodoList) -> (r: Report)
        ensures
            final(list)@ == after(old(list)@, self@),
            r@ == report_of(old(list)@, self@),
    {
        match self {
            Commands::Config { file_path, show } => {
                if *show {
                    Report::Location
                } else {
                    match file_path {
                        Some(path) => Report::Relocate(path.clone()),
                        None => Report::ConfigHelp,
                    }
                }
            },
            Commands::Add { group, description } => {
                let group = match group {
                    Some(name) => Some(name.clone()),
                    None => None,
                };
                list.add_task(description.clone(), group);
                Report::Silent
            },
            Commands::List => Report::Listing,
            Commands::Toggle { task_id } => outcome(list.toggle_task(*task_id), Report::Silent),
            Commands::Remove { task_id } => outcome(list.remove_task(*task_id), Report::Silent),
            Commands::Edit { task_id, description } => outcome(
                list.edit_task(*task_id, description.clone()),
                Report::Listing,
            ),
            Commands::Search { partial_description } => {
                let hits = list.search_tasks(partial_description.as_str());
                if hits.len() == 0 {
                    Report::NoMatch(partial_description.clone())
                } else {
                    let mut ids: Vec<usize> = Vec::new();
                    let mut k: usize = 0;
                    while k < hits.len()
                        invariant
                            k <= hits.len(),
                            hits@.len() == found(list@, partial_description@).len(),
                            forall|j: int|
                                0 <= j < hits@.len() ==> #[trigger] hits@[j].0 == found(
                                    list@,
                                    partial_description@,
                                )[j],
                            ids@.map_values(|i: usize| i as int) == found(
                                list@,
                                partial_description@,
                            ).take(k as int),
                        decreases hits.len() - k,
                    {
                        let ghost before = ids@.map_values(|i: usize| i as int);
                        ids.push(hits[k].0);
                        assert(ids@.map_values(|i: usize| i as int) == before.push(
                            hits@[k as int].0 as int,
                        ));
                        k += 1;
                    }
                    assert(found(list@, partial_description@).take(k as int) == found(
                        list@,
                        partial_description@,
                    ));
                    Report::Matches(ids)
                }
            },
            Commands::Clear => {
                list.clear();
                Report::Silent
            },
        }
    }
}

impl Cli {
    /// Whether the list is to be written back after what was asked for.
    pub fn saves(&self) -> (r: bool)
        ensures
            r == (match self.command {
                Some(command) => persists(command@),
                None => false,
            }),
    {
        match &self.command {
            Some(command) => command.saves(),
            None => false,
        }
    }

    /// Runs what was asked for on `list` and says what is to be shown. With
    /// no command nothing happens.
    pub fn run(&self, list: &mut TodoList) -> (r: Report)
        ensures
            final(list)@ == (match self.command {
                Some(command) => after(old(list)@, command@),
                None => old(list)@,
            }),
            r@ == (match self.command {
                Some(command) => report_of(old(list)@, command@),
                None => ReportView::Silent,
            }),
    {
        match &self.command {
            Some(command) => command.run(list),
            None => Report::Silent,
        }
    }
}

} // verus!
