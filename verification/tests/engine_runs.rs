use std::collections::BTreeMap;

use winbooster::engine::Engine;
use winbooster::entry::{EntryKind, ResolvedEntry};
use winbooster::protocol::{Probe, Request, Response};
use winbooster::report::CleanupReport;
use winbooster::rule::CleanupRule;

/// What a path of the disk below holds, with the size of its own metadata.
#[derive(Clone, Copy, Debug, PartialEq)]
enum Node {
    File(u64),
    Dir(u64),
}

/// A disk in memory that answers the engine as a real one would.
struct Disk {
    nodes: BTreeMap<String, Node>,
    /// The paths that the expansion under way has still to yield.
    queue: Vec<String>,
    /// Paths whose resolution fails.
    unreadable: Vec<String>,
    /// Every request that was answered, in order.
    log: Vec<Request>,
}

fn is_separator(c: char) -> bool {
    c == '/' || c == '\\'
}

fn segments(path: &str) -> Vec<&str> {
    path.split(is_separator).collect()
}

fn name_matches(pattern: &[char], name: &[char]) -> bool {
    match pattern.split_first() {
        None => name.is_empty(),
        Some((&'*', rest)) => (0..=name.len()).any(|skip| name_matches(rest, &name[skip..])),
        Some((&'?', rest)) => !name.is_empty() && name_matches(rest, &name[1..]),
        Some((c, rest)) => name.first() == Some(c) && name_matches(rest, &name[1..]),
    }
}

fn segments_match(pattern: &[&str], path: &[&str]) -> bool {
    match pattern.split_first() {
        None => path.is_empty(),
        Some((&"**", rest)) => (0..=path.len()).any(|skip| segments_match(rest, &path[skip..])),
        Some((first, rest)) => {
            !path.is_empty()
                && name_matches(
                    &first.chars().collect::<Vec<char>>(),
                    &path[0].chars().collect::<Vec<char>>(),
                )
                && segments_match(rest, &path[1..])
        }
    }
}

fn well_formed(pattern: &str) -> bool {
    !pattern.contains("***") && !pattern.contains('[')
}

fn inside(path: &str, dir: &str) -> bool {
    path.len() > dir.len() && path.starts_with(dir) && path[dir.len()..].starts_with(is_separator)
}

impl Disk {
    fn new(nodes: &[(&str, Node)]) -> Disk {
        Disk {
            nodes: nodes.iter().map(|(path, node)| (path.to_string(), *node)).collect(),
            queue: Vec::new(),
            unreadable: Vec::new(),
            log: Vec::new(),
        }
    }

    fn holds(&self, path: &str) -> bool {
        self.nodes.contains_key(path)
    }

    fn expand(&self, pattern: &str) -> Option<Vec<String>> {
        if !well_formed(pattern) {
            return None;
        }
        let wanted = segments(pattern);
        Some(
            self.nodes
                .keys()
                .filter(|path| segments_match(&wanted, &segments(path)))
                .cloned()
                .collect(),
        )
    }

    fn kind(&self, path: &str) -> EntryKind {
        match self.nodes.get(path) {
            Some(Node::File(_)) => EntryKind::File,
            Some(Node::Dir(_)) => EntryKind::Directory,
            None => EntryKind::Other,
        }
    }

    fn resolve(&self, path: String) -> ResolvedEntry {
        let len = match self.nodes.get(&path) {
            Some(Node::File(n)) | Some(Node::Dir(n)) => Some(*n),
            None => None,
        };
        let kind = self.kind(&path);
        ResolvedEntry::resolve(path, kind == EntryKind::File, kind == EntryKind::Directory, len)
    }

    fn remove_file(&mut self, path: &str) -> bool {
        match self.nodes.get(path) {
            Some(Node::File(_)) => self.nodes.remove(path).is_some(),
            _ => false,
        }
    }

    fn remove_dir_all(&mut self, path: &str) -> bool {
        match self.nodes.get(path) {
            Some(Node::Dir(_)) => {
                self.nodes.retain(|other, _| other != path && !inside(other, path));
                true
            }
            _ => false,
        }
    }

    fn remove_dir(&mut self, path: &str) -> bool {
        match self.nodes.get(path) {
            Some(Node::Dir(_)) if !self.nodes.keys().any(|other| inside(other, path)) => {
                self.nodes.remove(path).is_some()
            }
            _ => false,
        }
    }

    fn answer(&mut self, request: &Request) -> Response {
        self.log.push(match request {
            Request::Expand { pattern } => Request::Expand { pattern: pattern.clone() },
            Request::NextEntry => Request::NextEntry,
            Request::RemoveFile { path } => Request::RemoveFile { path: path.clone() },
            Request::RemoveDirAll { path } => Request::RemoveDirAll { path: path.clone() },
            Request::RemoveDir { path } => Request::RemoveDir { path: path.clone() },
            Request::ListChildren { pattern } => Request::ListChildren { pattern: pattern.clone() },
            Request::Finished => Request::Finished,
        });
        let removed = |done: bool| if done { Response::Removed } else { Response::NotRemoved };
        match request {
            Request::Expand { pattern } => match self.expand(pattern) {
                Some(paths) => {
                    self.queue = paths;
                    Response::PatternAccepted
                }
                None => Response::PatternRejected,
            },
            Request::NextEntry => {
                if self.queue.is_empty() {
                    Response::NoMoreEntries
                } else {
                    let path = self.queue.remove(0);
                    if self.unreadable.contains(&path) {
                        Response::EntryUnreadable
                    } else {
                        Response::Entry(self.resolve(path))
                    }
                }
            }
            Request::RemoveFile { path } => removed(self.remove_file(path)),
            Request::RemoveDirAll { path } => removed(self.remove_dir_all(path)),
            Request::RemoveDir { path } => removed(self.remove_dir(path)),
            Request::ListChildren { pattern } => match self.expand(pattern) {
                Some(paths) => Response::Children(
                    paths
                        .iter()
                        .map(|path| {
                            if self.unreadable.contains(path) {
                                Probe::Unreadable
                            } else {
                                Probe::Found(self.kind(path))
                            }
                        })
                        .collect(),
                ),
                None => Response::PatternRejected,
            },
            Request::Finished => unreachable!(),
        }
    }

    /// Runs the engine over `rules` against this disk, to the end.
    fn clean(&mut self, rules: Vec<CleanupRule>, selected: &[&str]) -> CleanupReport {
        let mut engine =
            Engine::new(rules, selected.iter().map(|category| category.to_string()).collect());
        let mut steps = 0;
        while !engine.is_finished() {
            let request = engine.request();
            let response = self.answer(&request);
            assert!(engine.accepts(&response));
            engine = engine.handle(response);
            steps += 1;
            assert!(steps < 10_000);
        }
        assert_eq!(engine.request(), Request::Finished);
        engine.into_report()
    }
}

fn names(list: &[&str]) -> Vec<String> {
    list.iter().map(|name| name.to_string()).collect()
}

fn rule(
    pattern: &str,
    owner: &str,
    category: &str,
    files: &[&str],
    dirs: &[&str],
    flags: (bool, bool, bool),
) -> CleanupRule {
    CleanupRule::new(
        pattern.to_string(),
        owner.to_string(),
        category.to_string(),
        names(files),
        names(dirs),
        flags.0,
        flags.1,
        flags.2,
    )
    .unwrap()
}

fn cleared(report: &CleanupReport) -> Vec<String> {
    report.cleared().iter().map(|c| c.program.clone()).collect()
}

fn app_disk(dir_size: u64) -> Disk {
    Disk::new(&[
        ("/tmp", Node::Dir(0)),
        ("/tmp/app", Node::Dir(0)),
        ("/tmp/app/a.log", Node::File(10)),
        ("/tmp/app/b.log", Node::File(20)),
        ("/tmp/app/old", Node::Dir(dir_size)),
    ])
}

#[test]
fn logs_rule_removes_two_files_and_an_empty_directory() {
    let mut disk = app_disk(0);
    let rules = vec![rule("/tmp/app/*", "App", "Logs", &[], &[], (true, true, false))];
    let report = disk.clean(rules, &["Logs"]);
    assert_eq!(report.files_removed(), 2);
    assert_eq!(report.directories_removed(), 1);
    assert_eq!(report.bytes_freed(), 30);
    assert_eq!(cleared(&report), names(&["App"]));
    assert!(!disk.holds("/tmp/app/a.log"));
    assert!(!disk.holds("/tmp/app/b.log"));
    assert!(!disk.holds("/tmp/app/old"));
    assert!(disk.holds("/tmp/app"));
}

#[test]
fn a_removed_directory_credits_the_size_of_its_own_metadata() {
    let mut disk = app_disk(4096);
    let rules = vec![rule("/tmp/app/*", "App", "Logs", &[], &[], (true, true, false))];
    let report = disk.clean(rules, &["Logs"]);
    assert_eq!(report.files_removed(), 2);
    assert_eq!(report.directories_removed(), 1);
    assert_eq!(report.bytes_freed(), 30 + 4096);
}

#[test]
fn a_matched_file_is_deleted_and_counted_once() {
    let mut disk = Disk::new(&[
        ("/data", Node::Dir(0)),
        ("/data/dump.bin", Node::File(700)),
        ("/data/keep", Node::Dir(0)),
    ]);
    let rules = vec![rule("/data/dump.bin", "Dumper", "Dumps", &[], &[], (true, false, false))];
    let report = disk.clean(rules, &["Dumps"]);
    assert!(!disk.holds("/data/dump.bin"));
    assert!(disk.holds("/data/keep"));
    assert_eq!(report.files_removed(), 1);
    assert_eq!(report.directories_removed(), 0);
    assert_eq!(report.bytes_freed(), 700);
    assert_eq!(
        disk.log,
        vec![
            Request::Expand { pattern: "/data/dump.bin".to_string() },
            Request::NextEntry,
            Request::RemoveFile { path: "/data/dump.bin".to_string() },
            Request::NextEntry,
        ]
    );
}

#[test]
fn a_file_rule_leaves_directories_and_a_directory_rule_leaves_files() {
    let mut disk = app_disk(0);
    let rules = vec![rule("/tmp/app/*", "App", "Logs", &[], &[], (true, false, false))];
    let report = disk.clean(rules, &["Logs"]);
    assert_eq!((report.files_removed(), report.directories_removed()), (2, 0));
    assert!(disk.holds("/tmp/app/old"));

    let mut disk = app_disk(0);
    let rules = vec![rule("/tmp/app/*", "App", "Logs", &[], &[], (false, true, false))];
    let report = disk.clean(rules, &["Logs"]);
    assert_eq!((report.files_removed(), report.directories_removed()), (0, 1));
    assert!(disk.holds("/tmp/app/a.log"));
    assert!(!disk.holds("/tmp/app/old"));
}

#[test]
fn a_sweep_counts_direct_children_only() {
    let mut disk = Disk::new(&[
        ("C:", Node::Dir(0)),
        ("C:\\Temp", Node::Dir(64)),
        ("C:\\Temp\\one.tmp", Node::File(1)),
        ("C:\\Temp\\two.tmp", Node::File(2)),
        ("C:\\Temp\\three.tmp", Node::File(3)),
        ("C:\\Temp\\left", Node::Dir(0)),
        ("C:\\Temp\\right", Node::Dir(0)),
        ("C:\\Temp\\left\\deep.tmp", Node::File(100)),
        ("C:\\Temp\\left\\deeper", Node::Dir(0)),
        ("C:\\Temp\\left\\deeper\\deepest.tmp", Node::File(1000)),
    ]);
    let rules = vec![rule("C:\\Temp", "Windows", "Cache", &[], &[], (false, false, true))];
    let report = disk.clean(rules, &["Cache"]);
    assert_eq!(report.files_removed(), 3);
    assert_eq!(report.directories_removed(), 2);
    assert_eq!(report.bytes_freed(), 64);
    assert_eq!(cleared(&report), names(&["Windows"]));
    assert_eq!(disk.nodes.len(), 1);
    assert!(disk.holds("C:"));
    assert_eq!(
        disk.log,
        vec![
            Request::Expand { pattern: "C:\\Temp".to_string() },
            Request::NextEntry,
            Request::ListChildren { pattern: "C:\\Temp\\*".to_string() },
            Request::RemoveDirAll { path: "C:\\Temp".to_string() },
            Request::NextEntry,
        ]
    );
}

#[test]
fn a_sweep_whose_removal_fails_credits_nothing() {
    // The entry is a file: its children are listed, none is found, and the
    // removal of a directory at its path fails.
    let mut disk = Disk::new(&[("C:", Node::Dir(0)), ("C:\\page.sys", Node::File(5))]);
    let rules = vec![rule("C:\\page.sys", "Windows", "Cache", &[], &[], (false, false, true))];
    let report = disk.clean(rules, &["Cache"]);
    assert_eq!(report.files_removed(), 0);
    assert_eq!(report.directories_removed(), 0);
    assert_eq!(report.bytes_freed(), 0);
    assert!(cleared(&report).is_empty());
    assert!(disk.holds("C:\\page.sys"));
}

#[test]
fn a_sweep_whose_children_cannot_be_listed_removes_nothing() {
    let mut disk = Disk::new(&[("C:", Node::Dir(0)), ("C:\\odd[", Node::Dir(8))]);
    let mut engine = Engine::new(
        vec![rule("C:\\*", "Windows", "Cache", &[], &[], (false, false, true))],
        names(&["Cache"]),
    );
    engine = engine.handle(Response::PatternAccepted);
    engine = engine.handle(Response::Entry(disk.resolve("C:\\odd[".to_string())));
    let request = engine.request();
    assert_eq!(request, Request::ListChildren { pattern: "C:\\odd[\\*".to_string() });
    let response = disk.answer(&request);
    assert_eq!(response, Response::PatternRejected);
    engine = engine.handle(response);
    assert_eq!(engine.request(), Request::NextEntry);
    assert_eq!(engine.report().directories_removed(), 0);
    assert!(disk.holds("C:\\odd["));
}

#[test]
fn a_second_run_finds_nothing_left() {
    let rules = || {
        vec![
            rule("/tmp/app/*", "App", "Logs", &[], &[], (true, true, false)),
            rule("/var/cache", "Cache", "Cache", &["index"], &["blobs"], (false, false, false)),
            rule("/var/spool", "Spool", "Cache", &[], &[], (false, false, true)),
        ]
    };
    let mut disk = app_disk(16);
    for (path, node) in [
        ("/var", Node::Dir(0)),
        ("/var/cache", Node::Dir(32)),
        ("/var/cache\\index", Node::File(9)),
        ("/var/cache\\blobs", Node::Dir(0)),
        ("/var/cache\\blobs\\b1", Node::File(9)),
        ("/var/spool", Node::Dir(7)),
        ("/var/spool\\job", Node::File(1)),
    ] {
        disk.nodes.insert(path.to_string(), node);
    }
    let first = disk.clean(rules(), &["Logs", "Cache"]);
    assert_eq!(first.files_removed(), 2 + 1 + 1);
    assert_eq!(first.directories_removed(), 1 + 1);
    assert_eq!(first.bytes_freed(), 30 + 16 + 32 + 32 + 7);
    assert_eq!(cleared(&first), names(&["App", "Cache", "Spool"]));
    let left = disk.nodes.clone();

    let second = disk.clean(rules(), &["Logs", "Cache"]);
    assert_eq!(second.files_removed(), 0);
    assert_eq!(second.directories_removed(), 0);
    assert_eq!(second.bytes_freed(), 0);
    assert!(cleared(&second).is_empty());
    assert_eq!(disk.nodes, left);
}

#[test]
fn an_unselected_category_causes_no_request() {
    let mut disk = app_disk(0);
    disk.nodes.insert("/home".to_string(), Node::Dir(0));
    disk.nodes.insert("/home/accounts.db".to_string(), Node::File(50));
    let rules = vec![
        rule("/home/accounts.db", "Mail", "Accounts", &[], &[], (true, false, false)),
        rule("/tmp/app/*.log", "App", "Logs", &[], &[], (true, false, false)),
    ];
    let report = disk.clean(rules, &["Logs"]);
    assert_eq!(report.files_removed(), 2);
    assert_eq!(cleared(&report), names(&["App"]));
    assert!(disk.holds("/home/accounts.db"));
    for request in &disk.log {
        let text = match request {
            Request::Expand { pattern } | Request::ListChildren { pattern } => pattern.as_str(),
            Request::RemoveFile { path }
            | Request::RemoveDirAll { path }
            | Request::RemoveDir { path } => path.as_str(),
            Request::NextEntry | Request::Finished => "",
        };
        assert!(!text.contains("/home"));
    }
    assert_eq!(disk.log[0], Request::Expand { pattern: "/tmp/app/*.log".to_string() });
}

#[test]
fn nothing_selected_finishes_at_once() {
    let rules = vec![rule("/tmp/app/*", "App", "Logs", &[], &[], (true, true, false))];
    let engine = Engine::new(rules, Vec::new());
    assert!(engine.is_finished());
    assert_eq!(engine.request(), Request::Finished);
    let report = engine.into_report();
    assert_eq!(report, CleanupReport::new());
}

#[test]
fn no_rules_finish_at_once() {
    let engine = Engine::new(Vec::new(), names(&["Logs"]));
    assert!(engine.is_finished());
}

#[test]
fn a_malformed_pattern_drops_its_rule_only() {
    let mut disk = app_disk(0);
    let rules = vec![
        rule("/tmp/***", "Broken", "Logs", &[], &[], (true, true, true)),
        rule("/tmp/app/*.log", "App", "Logs", &[], &[], (true, false, false)),
    ];
    let report = disk.clean(rules, &["Logs"]);
    assert_eq!(report.files_removed(), 2);
    assert_eq!(cleared(&report), names(&["App"]));
    assert_eq!(disk.log[0], Request::Expand { pattern: "/tmp/***".to_string() });
    assert_eq!(disk.log[1], Request::Expand { pattern: "/tmp/app/*.log".to_string() });
}

#[test]
fn an_unreadable_entry_is_passed_over() {
    let mut disk = app_disk(0);
    disk.unreadable.push("/tmp/app/a.log".to_string());
    let rules = vec![rule("/tmp/app/*", "App", "Logs", &[], &[], (true, false, false))];
    let report = disk.clean(rules, &["Logs"]);
    assert_eq!(report.files_removed(), 1);
    assert_eq!(report.bytes_freed(), 20);
    assert!(disk.holds("/tmp/app/a.log"));
    assert!(!disk.holds("/tmp/app/b.log"));
}

#[test]
fn every_successful_step_credits_the_entry_size_again() {
    let mut disk = Disk::new(&[
        ("C:", Node::Dir(0)),
        ("C:\\App", Node::Dir(100)),
        ("C:\\App\\debug.log", Node::File(11)),
        ("C:\\App\\Crashes", Node::Dir(0)),
        ("C:\\App\\Crashes\\c1", Node::File(12)),
    ]);
    let rules = vec![rule(
        "C:\\App",
        "App",
        "Logs",
        &["debug.log", "missing.log"],
        &["Crashes", "Missing"],
        (true, true, false),
    )];
    let report = disk.clean(rules, &["Logs"]);
    // One explicit file, one explicit directory and the entry itself went;
    // each credits the size of the entry, not its own.
    assert_eq!(report.files_removed(), 1);
    assert_eq!(report.directories_removed(), 2);
    assert_eq!(report.bytes_freed(), 300);
    assert_eq!(cleared(&report), names(&["App"]));
    assert_eq!(disk.nodes.len(), 1);
    assert_eq!(
        disk.log,
        vec![
            Request::Expand { pattern: "C:\\App".to_string() },
            Request::NextEntry,
            Request::RemoveFile { path: "C:\\App\\debug.log".to_string() },
            Request::RemoveFile { path: "C:\\App\\missing.log".to_string() },
            Request::RemoveDirAll { path: "C:\\App\\Crashes".to_string() },
            Request::RemoveDirAll { path: "C:\\App\\Missing".to_string() },
            Request::RemoveDir { path: "C:\\App\\Crashes".to_string() },
            Request::RemoveDir { path: "C:\\App\\Missing".to_string() },
            Request::RemoveDirAll { path: "C:\\App".to_string() },
            Request::NextEntry,
        ]
    );
}

#[test]
fn the_second_pass_removes_an_empty_directory_that_the_first_could_not() {
    let mut engine = Engine::new(
        vec![rule("C:\\App", "App", "Logs", &[], &["Crashes"], (false, false, false))],
        names(&["Logs"]),
    );
    engine = engine.handle(Response::PatternAccepted);
    engine = engine.handle(Response::Entry(ResolvedEntry::resolve(
        "C:\\App".to_string(),
        false,
        true,
        Some(40),
    )));
    assert_eq!(engine.request(), Request::RemoveDirAll { path: "C:\\App\\Crashes".to_string() });
    engine = engine.handle(Response::NotRemoved);
    assert_eq!(engine.request(), Request::RemoveDir { path: "C:\\App\\Crashes".to_string() });
    engine = engine.handle(Response::Removed);
    assert_eq!(engine.request(), Request::NextEntry);
    assert_eq!(engine.report().directories_removed(), 1);
    assert_eq!(engine.report().bytes_freed(), 40);
    engine = engine.handle(Response::NoMoreEntries);
    assert!(engine.is_finished());
}

#[test]
fn an_owner_is_listed_once_and_only_if_productive() {
    let mut disk = app_disk(0);
    let rules = vec![
        rule("/tmp/app/a.log", "App", "Logs", &[], &[], (true, false, false)),
        rule("/tmp/nothing/*", "Idle", "Logs", &[], &[], (true, true, true)),
        rule("/tmp/app/b.log", "App", "Logs", &[], &[], (true, false, false)),
        rule("/tmp/app/old", "Other", "Logs", &[], &[], (false, true, false)),
    ];
    let report = disk.clean(rules, &["Logs"]);
    assert_eq!(cleared(&report), names(&["App", "Other"]));
    assert!(report.has_cleared(&"App".to_string()));
    assert!(!report.has_cleared(&"Idle".to_string()));
}

#[test]
fn an_entry_without_steps_is_passed_over() {
    let mut engine = Engine::new(
        vec![rule("/tmp/app/*", "App", "Logs", &[], &[], (true, false, false))],
        names(&["Logs"]),
    );
    engine = engine.handle(Response::PatternAccepted);
    engine = engine.handle(Response::Entry(ResolvedEntry::resolve(
        "/tmp/app/old".to_string(),
        false,
        true,
        Some(1),
    )));
    assert_eq!(engine.request(), Request::NextEntry);
    assert_eq!(engine.report(), &CleanupReport::new());
}

#[test]
fn an_answer_that_does_not_fit_the_request_changes_nothing() {
    let mut engine = Engine::new(
        vec![rule("/tmp/app/*", "App", "Logs", &[], &[], (true, false, false))],
        names(&["Logs"]),
    );
    let expand = Request::Expand { pattern: "/tmp/app/*".to_string() };
    for stray in [
        Response::Removed,
        Response::NotRemoved,
        Response::NoMoreEntries,
        Response::EntryUnreadable,
        Response::Children(vec![Probe::Found(EntryKind::File)]),
    ] {
        engine = engine.handle(stray);
        assert_eq!(engine.request(), expand);
    }
    engine = engine.handle(Response::PatternAccepted);
    for stray in [Response::Removed, Response::PatternAccepted, Response::PatternRejected] {
        engine = engine.handle(stray);
        assert_eq!(engine.request(), Request::NextEntry);
    }
    engine = engine.handle(Response::Entry(ResolvedEntry::resolve(
        "/tmp/app/a.log".to_string(),
        true,
        false,
        Some(10),
    )));
    let remove = Request::RemoveFile { path: "/tmp/app/a.log".to_string() };
    for stray in [
        Response::PatternRejected,
        Response::NoMoreEntries,
        Response::Children(Vec::new()),
    ] {
        engine = engine.handle(stray);
        assert_eq!(engine.request(), remove);
    }
    assert_eq!(engine.report().files_removed(), 0);
}

#[test]
fn a_count_that_would_overflow_is_not_accepted() {
    let mut engine = Engine::new(
        vec![rule("/big", "Big", "Logs", &["a", "b"], &[], (false, false, false))],
        names(&["Logs"]),
    );
    engine = engine.handle(Response::PatternAccepted);
    engine = engine.handle(Response::Entry(ResolvedEntry::resolve(
        "/big".to_string(),
        false,
        true,
        Some(u64::MAX),
    )));
    assert!(engine.accepts(&Response::Removed));
    engine = engine.handle(Response::Removed);
    assert!(!engine.accepts(&Response::Removed));
    assert!(engine.accepts(&Response::NotRemoved));
    engine = engine.handle(Response::NotRemoved);
    assert_eq!(engine.report().bytes_freed(), u64::MAX);
    assert_eq!(engine.report().files_removed(), 1);
}

#[test]
fn a_pattern_without_wildcard_yields_its_path_or_nothing() {
    let mut disk = app_disk(0);
    let rules = vec![
        rule("/tmp/app/a.log", "Present", "Logs", &[], &[], (true, false, false)),
        rule("/tmp/app/c.log", "Absent", "Logs", &[], &[], (true, false, false)),
    ];
    let report = disk.clean(rules, &["Logs"]);
    assert_eq!(report.files_removed(), 1);
    assert_eq!(cleared(&report), names(&["Present"]));
    assert_eq!(
        disk.log,
        vec![
            Request::Expand { pattern: "/tmp/app/a.log".to_string() },
            Request::NextEntry,
            Request::RemoveFile { path: "/tmp/app/a.log".to_string() },
            Request::NextEntry,
            Request::Expand { pattern: "/tmp/app/c.log".to_string() },
            Request::NextEntry,
        ]
    );
}

#[test]
fn a_recursive_pattern_reaches_every_depth() {
    let mut disk = Disk::new(&[
        ("C:", Node::Dir(0)),
        ("C:\\Shots", Node::Dir(0)),
        ("C:\\Shots\\top.png", Node::File(1)),
        ("C:\\Shots\\top.txt", Node::File(2)),
        ("C:\\Shots\\2024", Node::Dir(0)),
        ("C:\\Shots\\2024\\mid.png", Node::File(4)),
        ("C:\\Shots\\2024\\05", Node::Dir(0)),
        ("C:\\Shots\\2024\\05\\low.png", Node::File(8)),
    ]);
    let rules =
        vec![rule("C:\\Shots\\**\\*.png", "ShareX", "Images", &[], &[], (true, false, false))];
    let report = disk.clean(rules, &["Images"]);
    assert_eq!(report.files_removed(), 3);
    assert_eq!(report.bytes_freed(), 1 + 4 + 8);
    assert!(disk.holds("C:\\Shots\\top.txt"));
    assert!(disk.holds("C:\\Shots\\2024\\05"));
    assert!(!disk.holds("C:\\Shots\\top.png"));
    assert!(!disk.holds("C:\\Shots\\2024\\05\\low.png"));
}

#[test]
fn an_entry_that_went_with_its_parent_counts_for_nothing() {
    let mut disk = Disk::new(&[
        ("C:", Node::Dir(0)),
        ("C:\\Cache", Node::Dir(3)),
        ("C:\\Cache\\a", Node::Dir(5)),
        ("C:\\Cache\\a\\b", Node::File(7)),
    ]);
    let rules = vec![rule("C:\\Cache\\**", "App", "Cache", &[], &[], (true, true, false))];
    let report = disk.clean(rules, &["Cache"]);
    // The expansion yields the base directory first, at depth zero; what was
    // inside it is gone by the time it is resolved.
    assert_eq!(report.directories_removed(), 1);
    assert_eq!(report.files_removed(), 0);
    assert_eq!(report.bytes_freed(), 3);
    assert_eq!(disk.nodes.len(), 1);
    assert_eq!(disk.log.iter().filter(|request| **request == Request::NextEntry).count(), 4);
}
