use esrafel::about::{AboutModel, AboutMsg};
use esrafel::logger::{StatusModel, StatusMsg};
use esrafel::preferences::{PreferencesModel, PreferencesMsg};
use esrafel::shortcuts::{ShortcutsModel, ShortcutsMsg};

#[test]
fn the_preferences_window_starts_hidden_with_the_test_preference_set() {
    let model = PreferencesModel::init_model();
    assert_eq!(model, PreferencesModel { test_pref: true, is_active: false });
}

#[test]
fn the_preferences_window_follows_its_messages() {
    let mut model = PreferencesModel::init_model();
    model.update(PreferencesMsg::Show);
    assert_eq!(model, PreferencesModel { test_pref: true, is_active: true });
    model.update(PreferencesMsg::Show);
    assert_eq!(model, PreferencesModel { test_pref: true, is_active: true });
    model.update(PreferencesMsg::Test);
    assert_eq!(model, PreferencesModel { test_pref: false, is_active: true });
    model.update(PreferencesMsg::Hide);
    assert_eq!(model, PreferencesModel { test_pref: false, is_active: false });
    model.update(PreferencesMsg::Test);
    assert_eq!(model, PreferencesModel { test_pref: true, is_active: false });
}

#[test]
fn the_shortcuts_window_follows_its_messages() {
    let mut model = ShortcutsModel::init_model();
    assert!(!model.is_active);
    model.update(ShortcutsMsg::Hide);
    assert!(!model.is_active);
    model.update(ShortcutsMsg::Show);
    assert!(model.is_active);
    model.update(ShortcutsMsg::Show);
    assert!(model.is_active);
    model.update(ShortcutsMsg::Hide);
    assert!(!model.is_active);
}

#[test]
fn the_about_dialog_starts_hidden_with_its_texts() {
    let model = AboutModel::init_model();
    assert!(!model.is_active);
    assert_eq!(model.comments, "Yeah");
    assert_eq!(model.program_name, "ESRafel");
    assert_eq!(model.version, "0.1.0");
}

#[test]
fn the_about_dialog_follows_its_messages_and_keeps_its_texts() {
    let mut model = AboutModel::init_model();
    model.update(AboutMsg::Show);
    assert!(model.is_active);
    assert_eq!(model.comments, "Yeah");
    assert_eq!(model.program_name, "ESRafel");
    assert_eq!(model.version, "0.1.0");
    model.update(AboutMsg::Hide);
    assert_eq!(model, AboutModel::init_model());
}

#[test]
fn the_status_log_keeps_every_message_and_shows_the_last() {
    let mut model = StatusModel::init_model();
    assert_eq!(model, StatusModel { log: Vec::new(), last_toast: None });
    model.update(StatusMsg::New("Loaded!".to_string()));
    assert_eq!(model.last_toast, Some("Loaded!".to_string()));
    assert_eq!(model.log, vec!["Loaded!".to_string()]);
    model.update(StatusMsg::New("Updated!".to_string()));
    assert_eq!(model.last_toast, Some("Updated!".to_string()));
    assert_eq!(model.log, vec!["Loaded!".to_string(), "Updated!".to_string()]);
}
