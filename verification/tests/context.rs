use vectorguard::context::{ContextWindow, MAX_PER_PID};

#[test]
fn first_event_returns_no_context() {
    let cw: ContextWindow<Vec<f32>> = ContextWindow::new(10, 4);
    assert!(cw.history_of(1234).is_none());
}

#[test]
fn old_events_are_pruned() {
    let mut cw = ContextWindow::new(5, 4); // 5-second window
    let t0 = 0u64;
    let t1 = 10_000_000_000u64; // 10s later — t0 outside window
    cw.push(1, t0, vec![1.0f32, 0.0, 0.0, 0.0]);
    cw.push(1, t1, vec![0.0f32, 1.0, 0.0, 0.0]);
    // Only the second event should remain
    assert_eq!(cw.history_of(1).unwrap().len(), 1);
}

#[test]
fn history_is_capped_and_kept_per_pid() {
    let mut cw = ContextWindow::new(3600, 1);
    for i in 0..40u64 {
        cw.push(7, i, i);
    }
    cw.push(8, 5, 100);
    let h = cw.history_of(7).unwrap();
    assert_eq!(h.len(), MAX_PER_PID);
    assert_eq!(h.front().map(|e| e.1), Some(8));
    assert_eq!(h.back().map(|e| e.1), Some(39));
    assert_eq!(cw.history_of(8).unwrap().len(), 1);
    assert_eq!(cw.vector_dim(), 1);
}

#[test]
fn entry_at_window_edge_stays() {
    let mut cw = ContextWindow::new(5, 1);
    cw.push(1, 0, 'a');
    cw.push(1, 5_000_000_000, 'b');
    assert_eq!(cw.history_of(1).unwrap().len(), 2);
    cw.push(1, 5_000_000_001, 'c');
    assert_eq!(cw.history_of(1).unwrap().len(), 2);
}
