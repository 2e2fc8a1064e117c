use process_explorer::columns::{SortColumn, SortState};
use process_explorer::listing::{compare_text, process_order, row_matches, Order, ProcessRow};

fn chars(s: &str) -> Vec<char> {
    s.chars().collect()
}

fn row(pid: u32, name: &str, cpu: f32, memory: u64) -> ProcessRow {
    ProcessRow {
        pid,
        name: chars(name),
        cpu_key: cpu.to_bits(),
        memory,
        virtual_memory: memory * 2,
        parent: None,
        start_time: 1000 + pid as u64,
        exe: None,
        cwd: None,
    }
}

fn sample() -> Vec<ProcessRow> {
    vec![
        row(300, "firefox", 12.5, 4096),
        row(12, "bash", 0.0, 1024),
        row(7, "Xorg", 3.25, 8192),
        row(1200, "bash", 55.0, 2048),
        row(42, "init", 0.0, 512),
    ]
}

fn order_of(rows: &Vec<ProcessRow>, filter: &str, column: SortColumn, ascending: bool) -> Vec<usize> {
    process_order(rows, &chars(filter), SortState { column, ascending })
}

#[test]
fn name_ascending_orders_by_code_point_and_keeps_ties() {
    let rows = sample();
    // "Xorg" sorts before lowercase names; the two "bash" rows keep their order.
    assert_eq!(order_of(&rows, "", SortColumn::Name, true), vec![2, 1, 3, 0, 4]);
}

#[test]
fn name_descending_keeps_ties_in_input_order() {
    let rows = sample();
    assert_eq!(order_of(&rows, "", SortColumn::Name, false), vec![4, 0, 1, 3, 2]);
}

#[test]
fn pid_and_memory_columns() {
    let rows = sample();
    assert_eq!(order_of(&rows, "", SortColumn::Pid, true), vec![2, 1, 4, 0, 3]);
    assert_eq!(order_of(&rows, "", SortColumn::Memory, false), vec![2, 0, 3, 1, 4]);
    // The status column is ordered by memory.
    assert_eq!(order_of(&rows, "", SortColumn::Status, true), vec![4, 1, 3, 0, 2]);
    assert_eq!(order_of(&rows, "", SortColumn::VirtualMemory, true), vec![4, 1, 3, 0, 2]);
    assert_eq!(order_of(&rows, "", SortColumn::StartTime, true), vec![2, 1, 4, 0, 3]);
}

#[test]
fn cpu_descending_with_equal_usages_stable() {
    let rows = sample();
    assert_eq!(order_of(&rows, "", SortColumn::Cpu, false), vec![3, 0, 2, 1, 4]);
    assert_eq!(order_of(&rows, "", SortColumn::Cpu, true), vec![1, 4, 2, 0, 3]);
}

#[test]
fn parent_column_puts_missing_parents_first() {
    let mut rows = sample();
    rows[0].parent = Some(1);
    rows[2].parent = Some(0);
    rows[4].parent = Some(1);
    assert_eq!(order_of(&rows, "", SortColumn::ParentPid, true), vec![1, 3, 2, 0, 4]);
}

#[test]
fn paths_compare_missing_as_empty() {
    let mut rows = sample();
    rows[0].exe = Some(chars("/usr/bin/firefox"));
    rows[1].exe = Some(chars(""));
    rows[3].exe = Some(chars("/bin/bash"));
    rows[2].cwd = Some(chars("/home"));
    // Missing and empty paths agree, so those rows keep their order.
    assert_eq!(order_of(&rows, "", SortColumn::ExecutablePath, true), vec![1, 2, 4, 3, 0]);
    assert_eq!(order_of(&rows, "", SortColumn::WorkingDirectory, false), vec![2, 0, 1, 3, 4]);
}

#[test]
fn filter_ignores_case_of_name() {
    let rows = sample();
    assert_eq!(order_of(&rows, "FIRE", SortColumn::Name, true), vec![0]);
    assert_eq!(order_of(&rows, "xorg", SortColumn::Name, true), vec![2]);
    assert_eq!(order_of(&rows, "BaSh", SortColumn::Pid, false), vec![3, 1]);
}

#[test]
fn filter_matches_pid_digits() {
    let rows = sample();
    // "12" occurs in the PIDs 12 and 1200 and in no name.
    assert_eq!(order_of(&rows, "12", SortColumn::Pid, true), vec![1, 3]);
    assert_eq!(order_of(&rows, "4", SortColumn::Name, true), vec![4]);
    assert_eq!(order_of(&rows, "zzz", SortColumn::Name, true), Vec::<usize>::new());
}

#[test]
fn empty_list_gives_empty_order() {
    let rows: Vec<ProcessRow> = Vec::new();
    assert_eq!(order_of(&rows, "", SortColumn::Name, true), Vec::<usize>::new());
}

#[test]
fn row_matches_on_lowered_texts() {
    assert!(row_matches(&chars("firefox"), &chars("fox"), 9, &chars("fox")));
    assert!(row_matches(&chars("init"), &chars("99"), 1995, &chars("99")));
    assert!(!row_matches(&chars("init"), &chars("x"), 1995, &chars("x")));
    assert!(row_matches(&chars("init"), &chars(""), 1, &chars("")));
}

#[test]
fn text_comparison() {
    assert_eq!(compare_text(&chars("abc"), &chars("abd")), Order::Less);
    assert_eq!(compare_text(&chars("abc"), &chars("ab")), Order::Greater);
    assert_eq!(compare_text(&chars(""), &chars("")), Order::Equal);
    assert_eq!(compare_text(&chars("Z"), &chars("a")), Order::Less);
    assert_eq!(compare_text(&chars("é"), &chars("z")), Order::Greater);
}

#[test]
fn descending_reverses_ascending_for_distinct_keys() {
    let rows = sample();
    let mut up = order_of(&rows, "", SortColumn::Pid, true);
    up.reverse();
    assert_eq!(order_of(&rows, "", SortColumn::Pid, false), up);
}

#[test]
fn filter_lowercases_beyond_ascii() {
    let rows = vec![row(5, "ÄRGER", 1.0, 1), row(6, "ärger-Tool", 2.0, 2), row(7, "other", 3.0, 3)];
    assert_eq!(order_of(&rows, "äR", SortColumn::Pid, true), vec![0, 1]);
    assert_eq!(order_of(&rows, "TOOL", SortColumn::Pid, true), vec![1]);
}

#[test]
fn longer_filter_keeps_a_subsequence() {
    let rows = sample();
    let short = order_of(&rows, "b", SortColumn::Memory, false);
    let long = order_of(&rows, "BAS", SortColumn::Memory, false);
    assert_eq!(short, vec![3, 1]);
    assert_eq!(long, vec![3, 1]);
    let wider = order_of(&rows, "1", SortColumn::Pid, true);
    let narrower = order_of(&rows, "120", SortColumn::Pid, true);
    assert_eq!(wider, vec![1, 3]);
    assert_eq!(narrower, vec![3]);
}
