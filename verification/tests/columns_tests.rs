use process_explorer::columns::{SortColumn, SortState, VisibleColumns};

#[test]
fn starts_sorted_by_name_ascending() {
    let s = SortState::new();
    assert_eq!(s.column, SortColumn::Name);
    assert!(s.ascending);
    assert_eq!(SortColumn::default(), SortColumn::Name);
}

#[test]
fn first_click_directions() {
    for (column, ascending) in [
        (SortColumn::Pid, true),
        (SortColumn::Cpu, false),
        (SortColumn::Memory, false),
        (SortColumn::VirtualMemory, false),
        (SortColumn::ParentPid, true),
        (SortColumn::StartTime, true),
        (SortColumn::ExecutablePath, true),
        (SortColumn::WorkingDirectory, true),
    ] {
        let mut s = SortState::new();
        s.click_header(column);
        assert_eq!(s, SortState { column, ascending });
    }
}

#[test]
fn second_click_flips_direction() {
    let mut s = SortState::new();
    s.click_header(SortColumn::Cpu);
    s.click_header(SortColumn::Cpu);
    assert_eq!(s, SortState { column: SortColumn::Cpu, ascending: true });
    s.click_header(SortColumn::Pid);
    assert_eq!(s, SortState { column: SortColumn::Pid, ascending: true });
}

#[test]
fn double_click_restores_state() {
    let start = SortState { column: SortColumn::Memory, ascending: true };
    let mut s = start;
    s.click_header(SortColumn::Memory);
    assert_eq!(s.ascending, false);
    s.click_header(SortColumn::Memory);
    assert_eq!(s, start);
}

#[test]
fn name_and_status_have_no_sort_button() {
    assert!(!SortColumn::Name.sortable_header());
    assert!(!SortColumn::Status.sortable_header());
    assert!(SortColumn::Pid.sortable_header());
    assert!(SortColumn::Cpu.starts_ascending() == false);
    assert!(SortColumn::ParentPid.starts_ascending());
}

#[test]
fn column_count_counts_shown_extras() {
    let none = VisibleColumns::default();
    assert_eq!(none.column_count(), 5);
    let some = VisibleColumns { virtual_memory: true, parent_pid: false, start_time: true, executable_path: false, working_directory: true };
    assert_eq!(some.column_count(), 8);
    let all = VisibleColumns { virtual_memory: true, parent_pid: true, start_time: true, executable_path: true, working_directory: true };
    assert_eq!(all.column_count(), 10);
}

#[test]
fn default_hides_extra_columns() {
    let v = VisibleColumns::default();
    assert!(!v.virtual_memory && !v.parent_pid && !v.start_time && !v.executable_path && !v.working_directory);
}

#[test]
fn hidden_or_label_headers_do_not_sort() {
    let mut visible = VisibleColumns::default();
    let mut s = SortState::new();
    s.click_shown_header(&visible, SortColumn::VirtualMemory);
    assert_eq!(s, SortState::new());
    s.click_shown_header(&visible, SortColumn::Status);
    assert_eq!(s, SortState::new());
    s.click_shown_header(&visible, SortColumn::Cpu);
    assert_eq!(s, SortState { column: SortColumn::Cpu, ascending: false });
    visible.virtual_memory = true;
    assert!(visible.sort_button_shown(SortColumn::VirtualMemory));
    s.click_shown_header(&visible, SortColumn::VirtualMemory);
    assert_eq!(s, SortState { column: SortColumn::VirtualMemory, ascending: false });
}
