use process_explorer::history::{push_bounded, refresh_due, Histories, RefreshTimer, HISTORY_POINTS};

#[test]
fn push_keeps_at_most_max() {
    let mut h: Vec<u32> = vec![1, 2, 3];
    push_bounded(&mut h, 4, 3);
    assert_eq!(h, vec![2, 3, 4]);
    push_bounded(&mut h, 5, 5);
    assert_eq!(h, vec![2, 3, 4, 5]);
}

#[test]
fn push_with_zero_max_keeps_nothing() {
    let mut h: Vec<u32> = Vec::new();
    push_bounded(&mut h, 9, 0);
    assert!(h.is_empty());
}

#[test]
fn sixty_points_of_history() {
    let mut h: Histories<f64> = Histories::new(4);
    assert_eq!(HISTORY_POINTS, 60);
    for i in 0..100 {
        h.record(i as f64, (i * 2) as f64, &vec![1.0, 2.0, 3.0, i as f64]);
    }
    assert_eq!(h.cpu.len(), 60);
    assert_eq!(h.cpu[0], 40.0);
    assert_eq!(*h.cpu.last().unwrap(), 99.0);
    assert_eq!(*h.memory.last().unwrap(), 198.0);
    assert_eq!(h.window_memory, h.memory);
    assert_eq!(h.cores.len(), 4);
    assert!(h.cores.iter().all(|c| c.len() == 60));
    assert_eq!(h.cores[3][59], 99.0);
}

#[test]
fn new_has_at_least_one_core() {
    let h: Histories<f64> = Histories::new(0);
    assert_eq!(h.cores.len(), 1);
    let h: Histories<f64> = Histories::new(6);
    assert_eq!(h.cores.len(), 6);
    assert!(h.cpu.is_empty() && h.memory.is_empty() && h.window_memory.is_empty());
}

#[test]
fn record_adds_missing_core_histories() {
    let mut h: Histories<u64> = Histories::new(1);
    h.record(1, 2, &vec![10, 20, 30]);
    assert_eq!(h.cores, vec![vec![10], vec![20], vec![30]]);
    h.record(3, 4, &vec![11]);
    assert_eq!(h.cores, vec![vec![10, 11], vec![20], vec![30]]);
    assert_eq!(h.cpu, vec![1, 3]);
    assert_eq!(h.memory, vec![2, 4]);
}

#[test]
fn refresh_after_the_interval() {
    assert!(!refresh_due(999, 1000));
    assert!(refresh_due(1000, 1000));
    assert!(refresh_due(5000, 1000));
}

#[test]
fn timer_is_not_due_again_right_after_a_refresh() {
    let mut t = RefreshTimer::new(1000, 0);
    assert!(!t.is_due(999));
    assert!(t.is_due(1000));
    t.restart(1005);
    assert!(!t.is_due(1005));
    assert!(!t.is_due(2004));
    assert!(t.is_due(2005));
    assert!(!t.is_due(3));
}
