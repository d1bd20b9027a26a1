use strava_client::server::{SettingsItemKind, login_success_body, logout_body, quoted, replace_line_breaks, save_failure_body, server_error, session_id, settings_item_kind, succes, user_id};

#[test]
fn answer_bodies_are_json_objects() {
    assert_eq!(succes("menu", "[]"), r#"{"menu": [] }"#);
    assert_eq!(server_error("boom"), r#"{"message":"boom"}"#);
    assert_eq!(quoted("a"), "\"a\"");
    assert_eq!(login_success_body("{}"), r#"{"message":"succesfully logged in","user":{}}"#);
    assert_eq!(logout_body("jan"), r#"{"message": "jan was succesfully logged out" }"#);
    assert_eq!(save_failure_body("a\r\nb", "1.5"), r#"{"message":"a b", "account": "1.5"}"#);
}

#[test]
fn sessions_are_named_after_the_user() {
    let id = user_id("jan", "1234");
    assert_eq!(id, "jan1234");
    assert_eq!(session_id(&id, -5), "jan1234-5");
    assert_eq!(session_id(&id, 32767), "jan123432767");
}

#[test]
fn line_breaks_become_spaces() {
    assert_eq!(replace_line_breaks("a\r\nb\r\n"), "a b ");
    assert_eq!(replace_line_breaks("a\nb\r"), "a\nb\r");
    assert_eq!(replace_line_breaks("\r\r\n"), "\r ");
}

#[test]
fn settings_lists_decide_the_kind_of_item() {
    assert!(matches!(settings_item_kind("blacklist"), Some(SettingsItemKind::Dish)));
    assert!(matches!(settings_item_kind("whitelist"), Some(SettingsItemKind::Dish)));
    assert!(matches!(settings_item_kind("strategy"), Some(SettingsItemKind::Strategy)));
    assert!(matches!(settings_item_kind("allergens"), Some(SettingsItemKind::Allergen)));
    assert!(settings_item_kind("other").is_none());
}
