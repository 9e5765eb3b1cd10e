use kitsune_rendercore::pause::{PauseEdge, PauseGate};

#[test]
fn one_log_per_edge_while_signal_held() {
    let mut gate = PauseGate::new();
    let signals = [false, true, true, true, true, false, false, false];
    let edges: Vec<PauseEdge> = signals.iter().map(|s| gate.observe(*s)).collect();
    let pausing = edges.iter().filter(|e| **e == PauseEdge::Pausing).count();
    let resuming = edges.iter().filter(|e| **e == PauseEdge::Resuming).count();
    assert_eq!(pausing, 1);
    assert_eq!(resuming, 1);
    assert_eq!(edges[1], PauseEdge::Pausing);
    assert_eq!(edges[5], PauseEdge::Resuming);
    assert!(!gate.is_paused());
}

#[test]
fn gate_starts_running() {
    let mut gate = PauseGate::new();
    assert!(!gate.is_paused());
    assert_eq!(gate.observe(false), PauseEdge::Steady);
    assert_eq!(gate.observe(true), PauseEdge::Pausing);
    assert!(gate.is_paused());
}
