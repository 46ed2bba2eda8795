use sysmon::control::{AppState, Command, Key};
use sysmon::models::SortOrder;

#[test]
fn starts_sorted_by_cpu() {
    let s = AppState::new();
    assert!(!s.should_quit);
    assert_eq!(s.sort_order, SortOrder::Cpu);
    assert_eq!(s.ui.selected, None);
    assert!(!s.refresh_due(999));
    assert!(s.refresh_due(1000));
}

#[test]
fn keys() {
    let pids = vec![10u32, 20, 30];
    let mut s = AppState::new();
    assert_eq!(s.handle_key(Key::Char('x'), &pids), Command::Nothing);
    assert_eq!(s.handle_key(Key::Other, &pids), Command::Nothing);
    assert_eq!(s.handle_key(Key::Char('k'), &pids), Command::Nothing);
    assert_eq!(s.handle_key(Key::Down, &pids), Command::Nothing);
    assert_eq!(s.handle_key(Key::Down, &pids), Command::Nothing);
    assert_eq!(s.ui.selected, Some(1));
    assert_eq!(s.handle_key(Key::Char('k'), &pids), Command::KillThenRefresh(20));
    assert_eq!(s.handle_key(Key::Up, &pids), Command::Nothing);
    assert_eq!(s.ui.selected, Some(0));
    assert_eq!(s.handle_key(Key::Char('r'), &pids), Command::Refresh);
    assert_eq!(s.sort_order, SortOrder::Cpu);
    assert_eq!(s.handle_key(Key::Char('s'), &pids), Command::Refresh);
    assert_eq!(s.sort_order, SortOrder::Memory);
    assert!(!s.should_quit);
    assert_eq!(s.handle_key(Key::Char('Q'), &pids), Command::Nothing);
    assert!(!s.should_quit);
    assert_eq!(s.handle_key(Key::Char('q'), &pids), Command::Nothing);
    assert!(s.should_quit);
}

#[test]
fn kill_needs_a_row_in_range() {
    let mut s = AppState::new();
    s.ui.selected = Some(5);
    assert_eq!(s.handle_key(Key::Char('k'), &vec![1, 2]), Command::Nothing);
    assert_eq!(s.handle_key(Key::Char('k'), &vec![1, 2, 3, 4, 5, 6]), Command::KillThenRefresh(6));
}
