use snap::filters::{PidEqFilter, UidEqFilter};
use snap::splitters::{
    uid_group_name_from, FilterError, ProcessSplitter, ProcessSplitterCustomFilter,
    ProcessSplitterEnvVariable, ProcessSplitterPids, ProcessSplitterUid,
};
use snap::process_tree::ProcessTree;
use snap::{ProcessInfo, ShmsMetadata};

fn plain_proc(pid: i32, uid: u32, environ: Vec<(String, String)>) -> ProcessInfo {
    ProcessInfo {
        pid,
        uid,
        environ,
        pfns: Vec::new(),
        swap_pages: Vec::new(),
        referenced_shms: Vec::new(),
    }
}

fn empty_meta() -> ShmsMetadata {
    ShmsMetadata { entries: Vec::new() }
}

fn empty_tree() -> ProcessTree {
    ProcessTree { parents: Vec::new() }
}

#[test]
fn first_match_wins() {
    // Two filters "a" then "b"; a process matching both lands in "a" only.
    let parser = |_s: &str| Some((PidEqFilter { pid: 1 }, 1usize));
    let mut sp = ProcessSplitterCustomFilter::new("a,b", parser).unwrap();
    assert_eq!(sp.names, vec!["a".to_string(), "b".to_string()]);
    sp.split(&empty_tree(), &empty_meta(), vec![plain_proc(1, 0, Vec::new())]);
    let groups = sp.iter_groups();
    assert_eq!(groups.len(), 3);
    assert_eq!(groups[0].name, "a");
    assert_eq!(groups[0].processes_info.len(), 1);
    assert_eq!(groups[1].name, "b");
    assert_eq!(groups[1].processes_info.len(), 0);
    assert_eq!(groups[2].name, "Other");
    assert_eq!(groups[2].processes_info.len(), 0);
}

#[test]
fn unmatched_processes_form_other() {
    let parser = |_s: &str| Some((PidEqFilter { pid: 1 }, 1usize));
    let mut sp = ProcessSplitterCustomFilter::new("a", parser).unwrap();
    sp.split(
        &empty_tree(),
        &empty_meta(),
        vec![plain_proc(1, 0, Vec::new()), plain_proc(2, 0, Vec::new())],
    );
    let groups = sp.iter_groups();
    assert_eq!(groups.len(), 2);
    assert_eq!(groups[0].processes_info.len(), 1);
    assert_eq!(groups[1].name, "Other");
    assert_eq!(groups[1].processes_info.len(), 1);
    assert_eq!(groups[1].processes_info[0].pid, 2);
}

#[test]
fn filter_text_must_be_ascii() {
    let parser = |_s: &str| Some((PidEqFilter { pid: 1 }, 1usize));
    let r = ProcessSplitterCustomFilter::new("h\u{e9}llo", parser);
    assert!(matches!(r, Err(FilterError::NotAscii)));
}

#[test]
fn unparsable_filter_names_remainder() {
    let parser = |_s: &str| -> Option<(PidEqFilter, usize)> { None };
    let r = ProcessSplitterCustomFilter::new("bogus", parser);
    match r {
        Err(FilterError::InvalidFilter { remainder }) => assert_eq!(remainder, "bogus"),
        _ => panic!("expected InvalidFilter"),
    }
}

#[test]
fn filter_names_are_comma_chunks() {
    // A parser that consumes up to the next comma.
    let parser = |s: &str| -> Option<(PidEqFilter, usize)> {
        let took = s.find(',').unwrap_or(s.len());
        if took == 0 {
            None
        } else {
            Some((PidEqFilter { pid: 7 }, took))
        }
    };
    let sp = ProcessSplitterCustomFilter::new("ab,cd", parser).unwrap();
    assert_eq!(sp.name, "ab,cd");
    assert_eq!(sp.names, vec!["ab".to_string(), "cd".to_string()]);
    assert_eq!(sp.filters.len(), 2);
}

#[test]
fn pid_split_always_two_groups() {
    let mut sp = ProcessSplitterPids::new(&vec![12, 34]);
    sp.split(&empty_tree(), &empty_meta(), Vec::new());
    assert_eq!(sp.iter_groups().len(), 2);
    // The first group is named by the joined pid list: the decimal
    // renderings with a comma-space separator.
    assert_eq!(sp.iter_groups()[0].name, "12, 34");
    assert_eq!(sp.iter_groups()[1].name, "Others PIDs");
}

#[test]
fn pid_split_partitions() {
    let procs = vec![
        plain_proc(1, 0, Vec::new()),
        plain_proc(2, 0, Vec::new()),
        plain_proc(3, 0, Vec::new()),
    ];
    let mut sp = ProcessSplitterPids::new(&vec![2]);
    sp.split(&empty_tree(), &empty_meta(), procs);
    let groups = sp.iter_groups();
    assert_eq!(groups[0].processes_info.len(), 1);
    assert_eq!(groups[0].processes_info[0].pid, 2);
    assert_eq!(groups[1].processes_info.len(), 2);
    // Flattening recovers every process exactly once.
    let mut pids: Vec<i32> = sp.collect_processes().iter().map(|p| p.pid).collect();
    pids.sort();
    assert_eq!(pids, vec![1, 2, 3]);
}

#[test]
fn env_split_groups_by_value() {
    // Values "1", "1" and absent: one group of two named for the value,
    // one group of one named for the absent form.
    let env1 = vec![("FOO".to_string(), "1".to_string())];
    let procs = vec![
        plain_proc(1, 0, env1.clone()),
        plain_proc(2, 0, env1),
        plain_proc(3, 0, Vec::new()),
    ];
    let mut sp = ProcessSplitterEnvVariable::new("FOO".to_string());
    sp.split(&empty_tree(), &empty_meta(), procs);
    let groups = sp.iter_groups();
    assert_eq!(groups.len(), 2);
    assert_eq!(groups[0].name, "Some(\"1\")");
    assert_eq!(groups[0].processes_info.len(), 2);
    assert_eq!(groups[1].name, "None");
    assert_eq!(groups[1].processes_info.len(), 1);
    assert_eq!(groups[1].processes_info[0].pid, 3);
}

#[test]
fn env_split_ignores_other_variables() {
    let procs = vec![plain_proc(1, 0, vec![("BAR".to_string(), "1".to_string())])];
    let mut sp = ProcessSplitterEnvVariable::new("FOO".to_string());
    sp.split(&empty_tree(), &empty_meta(), procs);
    let groups = sp.iter_groups();
    assert_eq!(groups.len(), 1);
    assert_eq!(groups[0].name, "None");
}

#[test]
fn uid_split_groups_by_owner() {
    let procs = vec![
        plain_proc(1, 100, Vec::new()),
        plain_proc(2, 200, Vec::new()),
        plain_proc(3, 100, Vec::new()),
    ];
    let mut sp = ProcessSplitterUid::new();
    sp.split(&empty_tree(), &empty_meta(), procs);
    let groups = sp.iter_groups();
    assert_eq!(groups.len(), 2);
    assert_eq!(groups[0].processes_info.len(), 2);
    assert!(groups[0].processes_info.iter().all(|p| p.uid == 100));
    assert_eq!(groups[1].processes_info.len(), 1);
    assert!(groups[1].processes_info.iter().all(|p| p.uid == 200));
    let procs = sp.collect_processes();
    assert_eq!(procs.len(), 3);
}

#[test]
fn uid_name_falls_back_to_digits() {
    assert_eq!(uid_group_name_from(1234, None), "1234");
    assert_eq!(uid_group_name_from(1234, Some("bob".to_string())), "bob");
}

#[test]
fn splitter_names() {
    let sp = ProcessSplitterPids::new(&vec![1]);
    assert_eq!(sp.name(), "PID list");
    let sp = ProcessSplitterUid::new();
    assert_eq!(sp.name(), "UID");
    let sp = ProcessSplitterEnvVariable::new("FOO".to_string());
    assert_eq!(sp.name(), "environment variable FOO");
}

#[test]
fn display_renders_table() {
    let procs = vec![plain_proc(1, 0, Vec::new()), plain_proc(2, 0, Vec::new())];
    let mut sp = ProcessSplitterPids::new(&vec![1]);
    sp.split(&empty_tree(), &empty_meta(), procs);
    let lines = sp.display(&empty_meta()).unwrap();
    assert_eq!(lines.len(), 5); // title, header, ruler, two rows
    assert_eq!(lines[0], "Process groups by PID list (MiB)");
    assert!(lines[1].starts_with("group_name"));
}

#[test]
fn custom_filter_by_owner() {
    let parser = |s: &str| -> Option<(UidEqFilter, usize)> {
        let took = s.find(',').unwrap_or(s.len());
        let uid: u32 = s[..took].parse().ok()?;
        Some((UidEqFilter { uid }, took))
    };
    let mut sp = ProcessSplitterCustomFilter::new("100,200", parser).unwrap();
    sp.split(
        &empty_tree(),
        &empty_meta(),
        vec![
            plain_proc(1, 100, Vec::new()),
            plain_proc(2, 200, Vec::new()),
            plain_proc(3, 300, Vec::new()),
        ],
    );
    let groups = sp.iter_groups();
    assert_eq!(groups.len(), 3);
    assert_eq!(groups[0].name, "100");
    assert_eq!(groups[0].processes_info[0].pid, 1);
    assert_eq!(groups[1].name, "200");
    assert_eq!(groups[1].processes_info[0].pid, 2);
    assert_eq!(groups[2].name, "Other");
    assert_eq!(groups[2].processes_info[0].pid, 3);
}
