use erscom::ini::Ini;
use erscom::settings::{setting_kind, settings_model, SettingKind};

#[test]
fn kind_password_from_key_name() {
    assert_eq!(setting_kind("cooppassword", "", "PASSWORD"), SettingKind::Password);
}

#[test]
fn kind_number_from_percent_in_help() {
    assert_eq!(setting_kind("scaling", "value in %", "SCALING"), SettingKind::Number);
}

#[test]
fn kind_text_in_save_or_language_sections() {
    assert_eq!(setting_kind("save_ext", "anything", "SAVE"), SettingKind::Text);
    assert_eq!(setting_kind("locale", "anything", "Language"), SettingKind::Text);
}

#[test]
fn kind_number_from_enumerated_help() {
    assert_eq!(setting_kind("mode", "1 = on, 2 = off", "MISC"), SettingKind::Number);
}

#[test]
fn kind_boolean_from_binary_help() {
    assert_eq!(setting_kind("enabled", "1 = on", "MISC"), SettingKind::Boolean);
}

#[test]
fn kind_boolean_in_gameplay_section() {
    assert_eq!(setting_kind("allow_summons", "", "GAMEPLAY"), SettingKind::Boolean);
}

#[test]
fn kind_defaults_to_text() {
    assert_eq!(setting_kind("plain", "no hints", "MISC"), SettingKind::Text);
}

#[test]
fn model_gathers_help_from_comments() {
    let ini = Ini::parse("[MISC]\n; first line\n; second line\nkey = 7\n");
    let model = settings_model(&ini);
    assert_eq!(model.len(), 2);
    let misc = &model[1];
    assert_eq!(misc.name, "MISC");
    assert_eq!(misc.settings.len(), 1);
    assert_eq!(misc.settings[0].name, "key");
    assert_eq!(misc.settings[0].value, "7");
    assert_eq!(misc.settings[0].help, "first line\nsecond line");
}

#[test]
fn model_resets_help_on_blank_line() {
    let ini = Ini::parse("[MISC]\n; stale note\n\nkey = 7\n");
    let model = settings_model(&ini);
    assert_eq!(model[1].settings[0].help, "");
}

#[test]
fn model_resets_help_after_each_setting() {
    let ini = Ini::parse("[MISC]\n; about a\na = 1\nb = 2\n");
    let model = settings_model(&ini);
    assert_eq!(model[1].settings[0].help, "about a");
    assert_eq!(model[1].settings[1].help, "");
}

#[test]
fn model_strips_comment_markers_from_help() {
    let ini = Ini::parse("[MISC]\n;; indented note  \nkey = 7\n");
    let model = settings_model(&ini);
    assert_eq!(model[1].settings[0].help, "indented note");
}
