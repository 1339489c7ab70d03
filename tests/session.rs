use kas_selector::session::EditSession;

#[test]
fn fresh_session_has_nothing_to_save() {
    let mut s = EditSession::new();
    assert!(!s.can_save());
    assert!(!s.begin_save());
    assert!(!s.is_saving());
    assert!(!s.error_shown());
}

#[test]
fn successful_save_cleans_the_session() {
    let mut s = EditSession::new();
    s.edited();
    assert!(s.can_save());
    assert!(s.begin_save());
    assert!(s.is_saving());
    assert!(!s.can_save());
    assert!(!s.begin_save());
    s.finish_save(true);
    assert!(!s.is_saving());
    assert!(!s.can_save());
    assert!(!s.error_shown());
}

#[test]
fn failed_save_keeps_edits_and_reports() {
    let mut s = EditSession::new();
    s.edited();
    assert!(s.begin_save());
    s.finish_save(false);
    assert!(s.error_shown());
    assert!(s.can_save());
    s.dismiss_error();
    assert!(!s.error_shown());
    assert!(s.can_save());
}

#[test]
fn edit_during_save_stays_unsaved() {
    let mut s = EditSession::new();
    s.edited();
    assert!(s.begin_save());
    s.edited();
    assert!(!s.can_save());
    s.finish_save(true);
    assert!(s.can_save());
}
