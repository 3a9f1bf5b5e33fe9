use aa_editor::loading::{controls_enabled, next_load_step, LoadEvent, LoadKind, LoadStep};

#[test]
fn waiting_keeps_waiting() {
    assert_eq!(next_load_step::<u8>(LoadKind::Project, LoadEvent::Waiting), LoadStep::KeepWaiting);
}

#[test]
fn received_value_is_applied() {
    assert_eq!(next_load_step(LoadKind::Mlt, LoadEvent::Received(Ok(5u8))), LoadStep::Apply(5));
}

#[test]
fn received_error_is_shown() {
    assert_eq!(
        next_load_step::<u8>(LoadKind::Mlt, LoadEvent::Received(Err("bad".to_string()))),
        LoadStep::ShowError("bad".to_string())
    );
}

#[test]
fn lost_worker_is_reported() {
    assert_eq!(
        next_load_step::<u8>(LoadKind::Project, LoadEvent::Disconnected),
        LoadStep::ShowError("failed to receive project load result".to_string())
    );
    assert_eq!(
        next_load_step::<u8>(LoadKind::Mlt, LoadEvent::Disconnected),
        LoadStep::ShowError("failed to receive mlt load result".to_string())
    );
}

#[test]
fn controls_follow_loading() {
    assert!(controls_enabled(false));
    assert!(!controls_enabled(true));
}
