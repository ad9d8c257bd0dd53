use wmde_files::unity::launcher_uri;
use wmde_files::unity::LauncherState;
use wmde_files::unity::APP_URI;
use wmde_files::unity::OPERATIONS_APP_ID;

#[test]
fn app_uri_matches_the_operations_window() {
    // The receiver keys the bar by desktop id and pairs it with the app id of a toplevel.
    // A uri that stops matching the window paints the progress on somebody else's button,
    // or on none at all, and nothing else would report it.
    assert_eq!(
        APP_URI,
        format!("application://{}.desktop", OPERATIONS_APP_ID)
    );
}

#[test]
fn launcher_uri_wraps_the_app_id() {
    assert_eq!(launcher_uri("org.example.App"), "application://org.example.App.desktop");
    assert_eq!(launcher_uri(OPERATIONS_APP_ID), APP_URI);
}

#[test]
fn nothing_is_announced_before_the_first_update() {
    let state: LauncherState<u8> = LauncherState::new();
    assert_eq!(state.on_connect(), None);
    assert_eq!(state.on_owner_change(true), None);
}

#[test]
fn the_last_update_survives_a_reconnect() {
    let mut state: LauncherState<(u8, bool)> = LauncherState::new();
    assert_eq!(state.on_update((10, true)), (10, true));
    assert_eq!(state.on_update((40, true)), (40, true));
    // A new connection, and a receiver that just appeared, both hear the last one.
    assert_eq!(state.on_connect(), Some((40, true)));
    assert_eq!(state.on_owner_change(true), Some((40, true)));
    // A receiver that went away needs nothing.
    assert_eq!(state.on_owner_change(false), None);
}
