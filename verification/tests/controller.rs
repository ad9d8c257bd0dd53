use wmde_files::operation::controller::cancels_on_drop;
use wmde_files::operation::controller::check_step;
use wmde_files::operation::controller::paused_reached;
use wmde_files::operation::controller::unpause_resumes;
use wmde_files::operation::controller::unpaused_reached;
use wmde_files::operation::controller::ControllerState;
use wmde_files::operation::controller::Counts;

const ALL: [ControllerState; 4] = [
    ControllerState::Cancelled,
    ControllerState::Failed,
    ControllerState::Paused,
    ControllerState::Running,
];

#[test]
fn a_stored_state_reads_back() {
    for state in ALL {
        assert_eq!(ControllerState::from_code(state.to_code()), state);
    }
    assert_eq!(ControllerState::Running.to_code(), 3);
}

#[test]
fn an_unknown_code_reads_as_failed() {
    assert_eq!(ControllerState::from_code(4), ControllerState::Failed);
    assert_eq!(ControllerState::from_code(u16::MAX), ControllerState::Failed);
}

#[test]
fn check_goes_on_stops_or_waits() {
    assert_eq!(check_step(ControllerState::Running), Some(Ok(())));
    assert_eq!(check_step(ControllerState::Cancelled), Some(Err(ControllerState::Cancelled)));
    assert_eq!(check_step(ControllerState::Failed), Some(Err(ControllerState::Failed)));
    assert_eq!(check_step(ControllerState::Paused), None);
}

#[test]
fn waiting_ends_in_the_right_states() {
    assert!(paused_reached(ControllerState::Paused));
    assert!(!paused_reached(ControllerState::Running));
    assert!(unpaused_reached(ControllerState::Running));
    for state in [ControllerState::Paused, ControllerState::Cancelled, ControllerState::Failed] {
        assert!(!unpaused_reached(state));
    }
}

#[test]
fn unpause_resumes_from_every_state() {
    for state in ALL {
        assert!(unpause_resumes(state));
    }
}

#[test]
fn only_the_primary_controller_cancels_on_drop() {
    assert!(cancels_on_drop(true, ControllerState::Running));
    assert!(cancels_on_drop(true, ControllerState::Paused));
    assert!(!cancels_on_drop(true, ControllerState::Failed));
    assert!(!cancels_on_drop(false, ControllerState::Running));
}

#[test]
fn a_snapshot_never_runs_past_a_known_total() {
    let counts = Counts::from_counters(12, 10, 5_000, 4_096);
    assert_eq!(
        counts,
        Counts { items_done: 10, items_total: 10, bytes_done: 4_096, bytes_total: 4_096 }
    );
    // A zero total is unknown, and the count is kept as read.
    let unknown = Counts::from_counters(3, 0, 700, 0);
    assert_eq!(unknown, Counts { items_done: 3, items_total: 0, bytes_done: 700, bytes_total: 0 });
    assert!(!unknown.has_bytes());
    assert!(counts.has_bytes());
}
