use wmde_files::key_bind;
use wmde_files::shortcuts::allowed;
use wmde_files::shortcuts::fallback_shortcuts;
use wmde_files::shortcuts::key_binds;
use wmde_files::shortcuts::Action;
use wmde_files::shortcuts::Binding;
use wmde_files::shortcuts::KeyBindAction;
use wmde_files::shortcuts::ModifierName;
use wmde_files::shortcuts::Mode;

/// The bindings of a mode when the user has changed nothing: the shipped ones.
fn binds(mode: &Mode) -> Vec<(Binding, Action)> {
    key_binds(mode, fallback_shortcuts().0)
}

#[test]
fn a_mode_only_gets_what_it_can_do() {
    let app = binds(&Mode::App);
    let desktop = binds(&Mode::Desktop);

    assert!(app.iter().any(|(_, a)| matches!(a, Action::TabNew)));
    assert!(
        !desktop.iter().any(|(_, a)| matches!(a, Action::TabNew)),
        "the desktop has no tabs"
    );
    assert!(
        desktop.iter().any(|(_, a)| matches!(a, Action::Copy)),
        "the desktop still copies files"
    );
    assert!(
        desktop.iter().any(|(_, a)| matches!(a, Action::ItemDown)),
        "arrow keys work everywhere"
    );
}

#[test]
fn the_dialog_navigates_but_leaves_files_alone() {
    let dialog = binds(&Mode::Dialog);
    assert!(dialog.iter().any(|(_, a)| matches!(a, Action::EditLocation)));
    assert!(dialog.iter().any(|(_, a)| matches!(a, Action::HistoryPrevious)));
    assert!(!dialog.iter().any(|(_, a)| matches!(a, Action::Rename)));
    assert!(!dialog.iter().any(|(_, a)| matches!(a, Action::Paste)));
    assert!(!dialog.iter().any(|(_, a)| matches!(a, Action::Settings)));
    let desktop = binds(&Mode::Desktop);
    assert!(!desktop.iter().any(|(_, a)| matches!(a, Action::LocationUp)));
}

#[test]
fn the_window_keeps_every_shipped_binding() {
    assert_eq!(binds(&Mode::App).len(), fallback_shortcuts().0.len());
    assert_eq!(fallback_shortcuts().0.len(), 52);
}

#[test]
fn a_disabled_binding_runs_nothing() {
    let resolved = vec![
        (Binding::new(vec![], "F5"), KeyBindAction::Disable),
        (Binding::new(vec![ModifierName::Alt], "T"), KeyBindAction::TabNew),
    ];
    let app = key_bind::key_binds(&Mode::App, resolved);
    assert_eq!(app.len(), 1);
    assert_eq!(app[0].1, Action::TabNew);
    assert_eq!(app[0].0.key, "T");
    assert_eq!(app[0].0.modifiers, vec![ModifierName::Alt]);
}

/// The shipped map with the user's bindings laid over it: a custom binding on a
/// shipped combination takes that entry's place, any other one is added.
fn layered(custom: Vec<(Binding, KeyBindAction)>) -> Vec<(Binding, KeyBindAction)> {
    let mut resolved = fallback_shortcuts().0;
    for (binding, action) in custom {
        match resolved
            .iter_mut()
            .find(|(b, _)| b.modifiers == binding.modifiers && b.key == binding.key)
        {
            Some(entry) => entry.1 = action,
            None => resolved.push((binding, action)),
        }
    }
    resolved
}

#[test]
fn a_rebound_action_stays_out_of_a_mode_that_cannot_do_it() {
    let custom = vec![(Binding::new(vec![ModifierName::Alt], "T"), KeyBindAction::TabNew)];

    assert!(key_binds(&Mode::App, layered(custom.clone()))
        .iter()
        .any(|(_, a)| matches!(a, Action::TabNew)));
    assert!(!key_binds(&Mode::Desktop, layered(custom))
        .iter()
        .any(|(_, a)| matches!(a, Action::TabNew)));
}

#[test]
fn a_custom_binding_replaces_the_default_it_lands_on() {
    // Ctrl+T ships as TabNew; binding it to something else takes the old action away.
    let captured = Binding::new(vec![ModifierName::Ctrl], "T");
    let binds = key_binds(&Mode::App, layered(vec![(captured, KeyBindAction::TabClose)]));

    let ctrl_t: Vec<&Action> = binds
        .iter()
        .filter(|(b, _)| b.modifiers == vec![ModifierName::Ctrl] && b.key == "T")
        .map(|(_, a)| a)
        .collect();
    assert_eq!(ctrl_t, vec![&Action::TabClose]);
    assert!(
        !binds.iter().any(|(_, a)| matches!(a, Action::TabNew)),
        "the default lost its only binding"
    );
}

#[test]
fn disable_takes_a_default_away() {
    let custom = vec![(Binding::new(vec![], "F5"), KeyBindAction::Disable)];

    assert!(!key_binds(&Mode::App, layered(custom))
        .iter()
        .any(|(_, a)| matches!(a, Action::Reload)));
}

#[test]
fn a_rebound_action_alone_stays_out_of_the_desktop() {
    let resolved = vec![(Binding::new(vec![ModifierName::Alt], "T"), KeyBindAction::TabNew)];
    assert!(key_binds(&Mode::Desktop, resolved).is_empty());
}

#[test]
fn every_stored_action_but_disable_runs_one() {
    assert!(KeyBindAction::Disable.is_disable());
    assert_eq!(KeyBindAction::Disable.to_action(), None);
    assert!(!KeyBindAction::ZoomIn.is_disable());
    assert_eq!(KeyBindAction::ZoomIn.to_action(), Some(Action::ZoomIn));
    assert_eq!(KeyBindAction::PermanentlyDelete.to_action(), Some(Action::PermanentlyDelete));
}

#[test]
fn modes_allow_their_groups() {
    assert!(allowed(Action::TabNew, &Mode::App));
    assert!(!allowed(Action::TabNew, &Mode::Dialog));
    assert!(allowed(Action::Copy, &Mode::Desktop));
    assert!(!allowed(Action::Copy, &Mode::Dialog));
    assert!(allowed(Action::SearchActivate, &Mode::Dialog));
    assert!(!allowed(Action::SearchActivate, &Mode::Desktop));
    assert!(allowed(Action::ZoomIn, &Mode::Desktop));
}

#[test]
fn shipped_letters_are_upper_case() {
    for (binding, action) in fallback_shortcuts().0.iter() {
        let mut chars = binding.key.chars();
        if let (Some(c), None) = (chars.next(), chars.next()) {
            assert!(!c.is_ascii_lowercase(), "{action:?}: key {:?}", binding.key);
        }
    }
}

#[test]
fn no_combination_is_shipped_twice() {
    let shipped = fallback_shortcuts().0;
    for (i, (a, _)) in shipped.iter().enumerate() {
        for (b, _) in shipped.iter().skip(i + 1) {
            assert!(
                a.modifiers != b.modifiers || a.key != b.key,
                "{:?}+{} is shipped twice",
                a.modifiers,
                a.key
            );
        }
    }
}

#[test]
fn ctrl_t_opens_a_tab() {
    let shipped = fallback_shortcuts().0;
    let found = shipped
        .iter()
        .find(|(b, _)| b.modifiers == vec![ModifierName::Ctrl] && b.key == "T")
        .map(|(_, a)| *a);
    assert_eq!(found, Some(KeyBindAction::TabNew));
}

#[test]
fn every_action_has_a_shipped_binding() {
    let shipped = fallback_shortcuts().0;
    for stored in [
        KeyBindAction::AddToSidebar,
        KeyBindAction::Gallery,
        KeyBindAction::HistoryNext,
        KeyBindAction::Preview,
        KeyBindAction::TabViewGrid,
        KeyBindAction::ZoomDefault,
    ] {
        assert!(shipped.iter().any(|(_, a)| *a == stored), "{stored:?} has no binding");
    }
    assert!(!shipped.iter().any(|(_, a)| a.is_disable()));
}
