use todocol::expand::{
    can_expand, expand_workspaces, expansion_or_empty, has_variable, keep_non_empty, swap_env,
    swap_env_all,
};
use todocol::path::{has_stem, join_path, project_name};
use todocol::workspace::project_dirs;
use todocol::{
    Action, CollectError, Entry, Event, FileFormat, TodoCollector, TodofileCommand, Walker,
    WorkspaceRun,
};

fn s(v: &[&str]) -> Vec<String> {
    v.iter().map(|x| x.to_string()).collect()
}

fn file(name: &str) -> Entry {
    Entry::new(name, false)
}

fn dir(name: &str) -> Entry {
    Entry::new(name, true)
}

#[test]
fn a_new_collector_has_the_defaults() {
    let c = TodoCollector::new();
    assert_eq!(&s(&["TODO"]), c.prefixes());
    assert!(c.ignore().is_empty());
    assert_eq!("TODO", c.result_file_name());
    assert_eq!(FileFormat::Raw, c.result_file_format());
}

#[test]
fn settings_are_taken_unless_empty() {
    let mut c = TodoCollector::new();
    c.set_prefixes(vec![]);
    assert_eq!(&s(&["TODO"]), c.prefixes());
    c.set_prefixes(s(&["FIXME", "NOTE"]));
    c.add_prefix("NOTE");
    c.add_prefix("");
    c.add_prefix("HACK");
    assert_eq!(&s(&["FIXME", "NOTE", "HACK"]), c.prefixes());
    c.set_result_file_name("");
    assert_eq!("TODO", c.result_file_name());
    c.set_result_file_name("tasks");
    assert_eq!("tasks", c.result_file_name());
    c.set_result_file_format("Markdown");
    assert_eq!(FileFormat::Markdown, c.result_file_format());
    c.set_result_file_format("nonsense");
    assert_eq!(FileFormat::Raw, c.result_file_format());
}

#[test]
fn the_ignore_list_is_kept_as_it_is_given() {
    let mut c = TodoCollector::new();
    c.set_ignore(s(&["target", ".git", "", "target"]));
    assert_eq!(&s(&["target", ".git", "", "target"]), c.ignore());
    c.set_ignore(s(&["target", ".git"]));
    c.add_ignore("target");
    c.add_ignore("");
    c.add_ignore("node_modules");
    assert_eq!(&s(&["target", ".git", "node_modules"]), c.ignore());
    c.set_ignore(vec![]);
    assert!(c.ignore().is_empty());
}

#[test]
fn the_fixed_names_are_always_skipped_by_a_walk() {
    let mut c = TodoCollector::new();
    assert_eq!(s(&[".vscode", ".git", ".gitignore", ".gitmodules"]), c.walk_ignore());
    c.set_ignore(s(&["target", ".git"]));
    assert_eq!(s(&["target", ".git", ".vscode", ".gitignore", ".gitmodules"]), c.walk_ignore());
    assert_eq!(&s(&["target", ".git"]), c.ignore());

    c.set_ignore(vec![]);
    let mut run = c.collect_from_project("p").unwrap();
    run.advance(Event::Done);
    let listing = vec![dir(".git"), dir(".vscode"), file(".gitignore"), dir(".gitmodules"), file("a.rs")];
    assert!(matches!(run.advance(Event::Listing(listing)), Action::ReadFile(p) if p == "p/a.rs"));
}

#[test]
fn result_file_paths() {
    let mut c = TodoCollector::new();
    assert_eq!("/w/proj/TODO.txt", c.get_result_file_path("/w/proj"));
    assert_eq!("/w/proj/TODO.txt", c.get_result_file_path("/w/proj/"));
    c.set_result_file_format("json");
    c.set_result_file_name("notes.v1");
    assert_eq!("p/notes.v1.json", c.get_result_file_path("p"));
}

#[test]
fn project_names() {
    assert_eq!(Ok("proj".to_string()), project_name("/w/proj"));
    assert_eq!(Ok("proj".to_string()), project_name("/w/proj/"));
    assert_eq!(Ok("proj".to_string()), project_name("/w/proj/./"));
    assert_eq!(Ok("proj".to_string()), project_name("proj"));
    assert_eq!(Ok("..x".to_string()), project_name("a/..x"));
    for bad in ["", "/", ".", "..", "/w/..", "./", "//"] {
        assert_eq!(Err(CollectError::InvalidProjectPath), project_name(bad), "{:?}", bad);
    }
}

#[test]
fn joined_paths_and_stems() {
    assert_eq!("a/b", join_path("a", "b"));
    assert_eq!("a/b", join_path("a/", "b"));
    assert_eq!("b", join_path("", "b"));
    assert!(has_stem("TODO.txt", "TODO"));
    assert!(has_stem("TODO", "TODO"));
    assert!(has_stem("a.b.c", "a.b"));
    assert!(!has_stem("TODO.txt", "TOD"));
    assert!(!has_stem("xTODO.txt", "TODO"));
    assert!(has_stem(".rs", ""));
}

fn found(w: &Walker) -> Vec<String> {
    w.found().iter().map(|f| f.path().to_string()).collect()
}

#[test]
fn the_walk_goes_depth_first_in_listing_order() {
    let mut w = Walker::new("/p", s(&[".git"]), "TODO");
    assert_eq!(Some("/p"), w.awaiting());
    w.feed(Some(vec![file("a.rs"), dir("src"), file("z.py"), dir("doc"), file("last.c")]));
    assert_eq!(Some("/p/src"), w.awaiting());
    assert_eq!(vec!["/p/a.rs"], found(&w));
    w.feed(Some(vec![file("m.rs"), dir("deep"), file("n.rs")]));
    assert_eq!(Some("/p/src/deep"), w.awaiting());
    w.feed(Some(vec![file("d.sh"), file("notes.txt")]));
    assert_eq!(Some("/p/doc"), w.awaiting());
    assert_eq!(vec!["/p/a.rs", "/p/src/m.rs", "/p/src/deep/d.sh", "/p/src/n.rs", "/p/z.py"], found(&w));
    assert!(!w.is_finished());
    w.feed(None);
    assert!(w.is_finished());
    assert_eq!(None, w.awaiting());
    assert_eq!(
        vec!["/p/a.rs", "/p/src/m.rs", "/p/src/deep/d.sh", "/p/src/n.rs", "/p/z.py", "/p/last.c"],
        found(&w)
    );
    w.feed(Some(vec![file("late.rs")]));
    assert_eq!(6, w.found().len());
}

#[test]
fn nothing_below_an_ignored_name_is_found() {
    let mut w = Walker::new("r", s(&["target", "gen.rs"]), "TODO");
    w.feed(Some(vec![dir("target"), file("gen.rs"), dir("a"), file("TODO.rs"), file("TODO.txt"), file("ok.rs")]));
    assert_eq!(Some("r/a"), w.awaiting());
    w.feed(Some(vec![dir("target"), dir("b")]));
    assert_eq!(Some("r/a/b"), w.awaiting());
    w.feed(Some(vec![file("gen.rs"), file("x.rs"), dir("target")]));
    assert!(w.is_finished());
    assert_eq!(vec!["r/a/b/x.rs", "r/ok.rs"], found(&w));
}

fn lines(v: &[&str]) -> Event {
    Event::Lines(s(v))
}

fn drive_project(c: &TodoCollector, listing_has_report: bool) -> (String, String) {
    let mut run = c.collect_from_project("/w/myproj").unwrap();
    assert!(matches!(run.action(), Action::RemoveFile(p) if p == "/w/myproj/TODO.txt"));
    assert!(matches!(run.advance(Event::Done), Action::ReadDir(p) if p == "/w/myproj"));
    let mut top = vec![dir(".git"), dir("src"), file("build.sh")];
    if listing_has_report {
        top.insert(1, file("TODO.txt"));
    }
    assert!(matches!(run.advance(Event::Listing(top)), Action::ReadDir(p) if p == "/w/myproj/src"));
    assert!(matches!(run.advance(Event::Listing(vec![file("main.rs")])), Action::ReadFile(p) if p == "/w/myproj/src/main.rs"));
    let a = run.advance(lines(&["// TODO: first", "//   goes on", "", "fn main() {} // TODO no", "  // TODO second"]));
    assert!(matches!(a, Action::ReadFile(p) if p == "/w/myproj/build.sh"));
    match run.advance(lines(&["#!/bin/sh", "# TODO: ship it"])) {
        Action::WriteFile(path, content) => {
            assert!(matches!(run.advance(Event::Done), Action::Finish(None)));
            assert!(run.is_finished());
            assert!(run.notices().is_empty());
            (path, content)
        }
        other => panic!("{:?}", other),
    }
}

#[test]
fn a_project_run_collects_in_the_order_of_the_walk() {
    let (path, content) = drive_project(&TodoCollector::new(), false);
    assert_eq!("/w/myproj/TODO.txt", path);
    assert_eq!(
        "myproj:\n- /w/myproj/src/main.rs:1 - first goes on\n- /w/myproj/src/main.rs:5 - second\n- /w/myproj/build.sh:2 - ship it\n",
        content
    );
}

#[test]
fn a_second_run_gives_the_same_report() {
    let c = TodoCollector::new();
    assert_eq!(drive_project(&c, false), drive_project(&c, true));
}

#[test]
fn failures_on_the_way_are_noted_and_the_run_goes_on() {
    let c = TodoCollector::new();
    let mut run = c.collect_from_project("p").unwrap();
    assert!(matches!(run.advance(Event::Listing(vec![])), Action::RemoveFile(_)));
    assert!(matches!(run.advance(Event::Failed), Action::ReadDir(_)));
    assert!(matches!(run.advance(Event::Done), Action::ReadDir(_)));
    assert!(matches!(run.advance(Event::Listing(vec![dir("a"), file("x.rs"), file("y.rs"), file("z.rs")])), Action::ReadDir(p) if p == "p/a"));
    assert!(matches!(run.advance(Event::Failed), Action::ReadFile(p) if p == "p/x.rs"));
    assert!(matches!(run.advance(Event::Failed), Action::ReadFile(p) if p == "p/y.rs"));
    assert!(matches!(run.advance(Event::Truncated(s(&["// TODO: kept"]))), Action::ReadFile(p) if p == "p/z.rs"));
    match run.advance(lines(&["// TODO: z"])) {
        Action::WriteFile(path, content) => {
            assert_eq!("p/TODO.txt", path);
            assert_eq!("p:\n- p/y.rs:1 - kept\n- p/z.rs:1 - z\n", content);
        }
        other => panic!("{:?}", other),
    }
    assert!(matches!(run.advance(Event::Failed), Action::Finish(Some(CollectError::OutputWriteFailure))));
    assert!(matches!(run.advance(Event::Done), Action::Finish(Some(CollectError::OutputWriteFailure))));
    let notes: Vec<(CollectError, &str)> = run.notices().iter().map(|n| (n.error, n.path.as_str())).collect();
    assert_eq!(
        vec![
            (CollectError::DirectoryReadFailure, "p/a"),
            (CollectError::FileReadFailure, "p/x.rs"),
            (CollectError::FileReadFailure, "p/y.rs"),
        ],
        notes
    );
}

#[test]
fn a_path_without_a_name_is_no_project() {
    let c = TodoCollector::new();
    assert_eq!(Some(CollectError::InvalidProjectPath), c.collect_from_project("/").err());
    assert_eq!(Some(CollectError::InvalidProjectPath), c.collect_from_project("a/..").err());
}

#[test]
fn projects_are_the_directories_of_a_workspace() {
    let entries = vec![dir("A"), file("readme.rs"), dir(".git"), dir("B")];
    assert_eq!(s(&["/ws/A", "/ws/.git", "/ws/B"]), project_dirs("/ws", &entries));
}

#[test]
fn a_workspace_run_goes_on_past_a_project_that_fails() {
    let mut run = WorkspaceRun::new(TodoCollector::new(), s(&["/ws", "/gone"]));
    assert!(matches!(run.action(), Action::ReadDir(p) if p == "/ws"));
    assert!(matches!(run.advance(Event::Listing(vec![dir("A"), file("f.rs"), dir("B")])), Action::ReadDir(p) if p == "/gone"));
    assert!(matches!(run.advance(Event::Failed), Action::RemoveFile(p) if p == "/ws/A/TODO.txt"));
    assert_eq!(&s(&["/ws/A", "/ws/B"]), run.projects());
    assert!(matches!(run.advance(Event::Done), Action::ReadDir(p) if p == "/ws/A"));
    assert!(matches!(run.advance(Event::Listing(vec![file("a.rs")])), Action::ReadFile(p) if p == "/ws/A/a.rs"));
    match run.advance(lines(&["// TODO: in A"])) {
        Action::WriteFile(path, content) => {
            assert_eq!("/ws/A/TODO.txt", path);
            assert_eq!("A:\n- /ws/A/a.rs:1 - in A\n", content);
        }
        other => panic!("{:?}", other),
    }
    assert!(matches!(run.advance(Event::Done), Action::RemoveFile(p) if p == "/ws/B/TODO.txt"));
    assert!(matches!(run.advance(Event::Done), Action::ReadDir(p) if p == "/ws/B"));
    assert!(matches!(run.advance(Event::Failed), Action::WriteFile(p, c) if p == "/ws/B/TODO.txt" && c == "B:\n"));
    assert!(matches!(run.advance(Event::Failed), Action::Finish(None)));
    assert!(matches!(run.advance(Event::Done), Action::Finish(None)));
    let notes: Vec<(CollectError, &str)> = run.notices().iter().map(|n| (n.error, n.path.as_str())).collect();
    assert_eq!(
        vec![
            (CollectError::DirectoryReadFailure, "/gone"),
            (CollectError::DirectoryReadFailure, "/ws/B"),
            (CollectError::OutputWriteFailure, "/ws/B"),
        ],
        notes
    );
}

#[test]
fn a_workspace_run_without_projects_is_over_at_once() {
    let run = WorkspaceRun::new(TodoCollector::new(), vec![]);
    assert!(matches!(run.action(), Action::Finish(None)));
}

#[test]
fn a_project_without_a_name_is_passed_over() {
    let mut run = WorkspaceRun::new(TodoCollector::new(), s(&[""]));
    let a = run.advance(Event::Listing(vec![dir(".."), dir("ok")]));
    assert!(matches!(a, Action::RemoveFile(p) if p == "ok/TODO.txt"));
    assert_eq!(1, run.notices().len());
    assert_eq!(CollectError::InvalidProjectPath, run.notices()[0].error);
    assert_eq!("..", run.notices()[0].path);
}

#[test]
fn paths_without_a_variable_stay_as_they_are() {
    assert!(has_variable("$HOME/x"));
    assert!(!has_variable("/home/x"));
    assert_eq!("/home/x", swap_env("/home/x"));
    assert_eq!("", swap_env(""));
    assert_eq!("", expansion_or_empty(None));
    assert_eq!("v", expansion_or_empty(Some("v".to_string())));
    assert_eq!(s(&["a", "b"]), keep_non_empty(s(&["", "a", "", "b", ""])));
    assert_eq!(s(&["/a", "/b"]), expand_workspaces(&s(&["/a", "", "/b"])));
}

#[test]
fn an_unset_variable_empties_the_path() {
    let name = "TODOCOL_SURELY_NOT_SET_4F1C";
    assert_eq!("", swap_env(&format!("/x/${}/y", name)));
    assert_eq!(s(&["/kept"]), expand_workspaces(&vec![format!("${}", name), "/kept".to_string()]));
}

#[test]
fn a_doubled_dollar_stands_for_one() {
    assert_eq!("a$b", swap_env("a$$b"));
    assert_eq!("cost: $", swap_env("cost: $"));
}

#[test]
fn a_variable_that_begins_with_a_wide_letter_is_not_expanded() {
    assert!(!can_expand("$\u{e9}t\u{e9}/projects"));
    assert!(!can_expand("a$b/$\u{20ac}"));
    assert!(can_expand("$HOME/\u{e9}t\u{e9}"));
    assert!(can_expand("${\u{e9}}"));
    assert!(can_expand("ends in $"));
    assert!(can_expand(""));
    assert_eq!("", swap_env("$\u{e9}t\u{e9}/projects"));
    assert_eq!("", swap_env("/x/$\u{4e2d}"));
    assert_eq!(s(&["/kept"]), expand_workspaces(&s(&["$\u{e9}", "/kept"])));
}

#[test]
fn an_expansion_begins_with_what_stood_before_the_variable() {
    assert_eq!("\u{e9}t\u{e9} $ x", swap_env("\u{e9}t\u{e9} $$ x"));
}

#[test]
fn each_path_is_expanded_in_its_place() {
    let paths = s(&["/a", "$\u{e9}", "x$$y", ""]);
    assert_eq!(s(&["/a", "", "x$y", ""]), swap_env_all(&paths));
    assert_eq!(s(&["/a", "x$y"]), expand_workspaces(&paths));
}

#[test]
fn only_the_closing_line_is_a_command() {
    assert_eq!("-<CLOSE>-", TodofileCommand::Close.command_str());
    assert_eq!("", TodofileCommand::NotCommand.command_str());
    assert_eq!(TodofileCommand::Close, TodofileCommand::from("-<CLOSE>-"));
    for line in ["", "-<CLOSE>", "-<close>-", " -<CLOSE>-", "- src/a.rs:1 - x"] {
        assert_eq!(TodofileCommand::NotCommand, TodofileCommand::from(line), "{:?}", line);
    }
    assert_eq!(
        TodofileCommand::Close,
        TodofileCommand::from(&TodofileCommand::Close.command_str())
    );
}

#[test]
fn every_error_has_its_message() {
    assert_eq!("Can not get project name from path", CollectError::InvalidProjectPath.message());
    assert_eq!("Can not write result file", CollectError::OutputWriteFailure.message());
    assert_eq!("Can not read directory", CollectError::DirectoryReadFailure.message());
    assert_eq!("Reading file failed", CollectError::FileReadFailure.message());
    assert_eq!("Result file format not supported", CollectError::UnsupportedFormat.message());
    assert_eq!("File extension not recognized or not supported", CollectError::UnsupportedExtension.message());
}
