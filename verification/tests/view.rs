use amanda::watch::monitor::SortBy;
use amanda::watch::view::{Key, ViewState};

#[test]
fn scrolling_stays_within_rows() {
    let mut v = ViewState::new(SortBy::Cpu);
    v.rows_refreshed(3);
    assert_eq!(v.selected, Some(0));
    assert!(!v.handle_key(Key::Down, 3));
    assert!(!v.handle_key(Key::Char('j'), 3));
    assert!(!v.handle_key(Key::Down, 3));
    assert_eq!(v.selected, Some(2));
    assert!(!v.handle_key(Key::Up, 3));
    assert!(!v.handle_key(Key::Char('k'), 3));
    assert!(!v.handle_key(Key::Char('k'), 3));
    assert_eq!(v.selected, Some(0));
}

#[test]
fn keys_change_order_or_quit() {
    let mut v = ViewState::new(SortBy::Cpu);
    v.rows_refreshed(0);
    assert_eq!(v.selected, None);
    assert!(!v.handle_key(Key::Char('m'), 0));
    assert_eq!(v.sort_by, SortBy::Memory);
    assert!(!v.handle_key(Key::Char('p'), 0));
    assert_eq!(v.sort_by, SortBy::Pid);
    assert!(!v.handle_key(Key::Char('n'), 0));
    assert_eq!(v.sort_by, SortBy::Name);
    assert!(!v.handle_key(Key::Char('c'), 0));
    assert_eq!(v.sort_by, SortBy::Cpu);
    assert!(!v.handle_key(Key::Other, 0));
    assert!(!v.handle_key(Key::Char('x'), 0));
    assert!(v.handle_key(Key::Char('q'), 0));
    assert!(v.handle_key(Key::Esc, 0));
    v.scroll_down(0);
    assert_eq!(v.selected, Some(0));
}
