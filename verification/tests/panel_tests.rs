use image_guesser::control_panel::{ChildAction, ControlPanel, Mode};

#[test]
fn new_panel_is_compact_4_by_4() {
    let cp = ControlPanel::new();
    assert_eq!(cp.mode, Mode::Compact);
    assert_eq!(cp.child_window_id, None);
    assert_eq!(cp.rows, 4);
    assert_eq!(cp.columns, 4);
}

#[test]
fn toggle_yields_one_event_per_toggle() {
    let mut cp = ControlPanel::new();
    for round in 0..2 {
        cp.set_mode(Mode::Full);
        assert_eq!(cp.reconcile(), Some(ChildAction::Open), "round {}", round);
        cp.record_child_opened(7);
        assert_eq!(cp.reconcile(), None, "open must not repeat in round {}", round);
        assert_eq!(cp.reconcile(), None);

        cp.set_mode(Mode::Compact);
        assert_eq!(cp.reconcile(), Some(ChildAction::Close(7)), "round {}", round);
        assert_eq!(cp.child_window_id, None);
        assert_eq!(cp.reconcile(), None, "close must not repeat in round {}", round);
        assert_eq!(cp.reconcile(), None);
    }
}

#[test]
fn notify_child_closed_falls_back_to_compact() {
    let mut cp = ControlPanel::new();
    cp.set_mode(Mode::Full);
    cp.reconcile();
    cp.record_child_opened(42);
    cp.notify_child_ui_has_closed(42);
    assert_eq!(cp.child_window_id, None);
    assert_eq!(cp.mode, Mode::Compact);
    assert_eq!(cp.reconcile(), None, "a closed child is not reopened in compact mode");
}

#[test]
fn set_grid_reports_changes() {
    let mut cp = ControlPanel::new();
    assert!(!cp.set_grid(4, 4));
    assert!(cp.set_grid(6, 4));
    assert_eq!((cp.rows, cp.columns), (6, 4));
    assert!(cp.set_grid(6, 8));
    assert!(!cp.set_grid(6, 8));
}
