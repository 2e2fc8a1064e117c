use process_explorer::display::{available_memory, estimated_cores, parent_text, selection_after_click, selection_if_present, CpuGrid};

#[test]
fn cpu_grid_shape() {
    assert_eq!(CpuGrid::new(1), CpuGrid { columns: 1, rows: 1 });
    assert_eq!(CpuGrid::new(8), CpuGrid { columns: 8, rows: 1 });
    assert_eq!(CpuGrid::new(12), CpuGrid { columns: 8, rows: 2 });
    assert_eq!(CpuGrid::new(16), CpuGrid { columns: 8, rows: 2 });
    assert_eq!(CpuGrid::new(17), CpuGrid { columns: 8, rows: 3 });
}

#[test]
fn rows_end_after_each_full_row() {
    let g = CpuGrid::new(12);
    let ends: Vec<usize> = (0..12).filter(|&i| g.ends_row(i)).collect();
    assert_eq!(ends, vec![7]);
    let g = CpuGrid::new(3);
    assert!(g.ends_row(2) && !g.ends_row(1));
}

#[test]
fn cores_are_half_the_logical_processors() {
    assert_eq!(estimated_cores(8), 4);
    assert_eq!(estimated_cores(1), 0);
}

#[test]
fn selection_rules() {
    assert_eq!(selection_after_click(Some(5), Some(9)), Some(9));
    assert_eq!(selection_after_click(Some(5), None), Some(5));
    assert_eq!(selection_after_click(None, None), None);
    assert_eq!(selection_if_present(Some(5), false), None);
    assert_eq!(selection_if_present(Some(5), true), Some(5));
}

#[test]
fn available_memory_saturates() {
    assert_eq!(available_memory(100, 30), 70);
    assert_eq!(available_memory(30, 100), 0);
}

#[test]
fn parent_column_text() {
    assert_eq!(parent_text(Some(4321)), "4321");
    assert_eq!(parent_text(None), "-");
}
