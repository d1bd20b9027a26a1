use strava_client::cantine::cantine_menu_from_text;
use strava_client::date::{Date, is_valid_date};
use strava_client::json::{Json, parse_json_object, parse_json_string, to_json_string};
use strava_client::menu::{Menu, menu_from_text};
use strava_client::requests::{
    OrderReply, login_failure_from_text, login_reply_from_text, order_reply_from_text, save_reply_from_text,
};
use strava_client::server::{SettingsItemKind, settings_string_item};
use strava_client::settings::{DishDBEntry, OrderPlan, OrdersCancelingSettings, SettingsData, plan_orders};

fn days(menu: &Menu) -> Vec<((i32, u32, u32), String, Vec<(String, String, bool)>)> {
    menu.iter()
        .map(|(k, d)| (*k, d.date.day_of_week.clone(), d.dishes.iter().map(|(n, i)| (n.clone(), i.id.clone(), i.order_state)).collect()))
        .collect()
}

#[test]
fn json_texts_are_read_as_objects_and_strings() {
    assert!(matches!(parse_json_object(r#"{"a": 1}"#), Some(Json::Object(ref m)) if m.len() == 1 && m[0].0 == "a"));
    assert!(parse_json_object("[1, 2]").is_none());
    assert!(parse_json_object("{not json").is_none());
    assert_eq!(parse_json_string(r#""replace""#), Some("replace".to_string()));
    assert_eq!(parse_json_string(r#""a\nb""#), Some("a\nb".to_string()));
    assert_eq!(parse_json_string("replace"), None);
    assert_eq!(parse_json_string("7"), None);
}

#[test]
fn json_strings_are_written_as_serde_json_writes_them() {
    assert_eq!(to_json_string("a\"b\\c\u{1}\n"), "\"a\\\"b\\\\c\\u0001\\n\"");
    assert_eq!(to_json_string("Guláš"), "\"Guláš\"");
}

#[test]
fn login_replies_are_read_from_text() {
    let l = login_reply_from_text(r#"{"sid":"S1","s5url":"U","uzivatel":{"jmeno":"Jan","konto":"12.50"}}"#).unwrap();
    assert_eq!((l.sid.as_str(), l.url.as_str(), l.username.as_str(), l.account.as_str()), ("S1", "U", "Jan", "12.50"));
    assert!(login_reply_from_text(r#"{"sid":"S1","s5url":"U"}"#).is_none());
    assert!(login_reply_from_text("<html>").is_none());
    assert_eq!(login_failure_from_text(r#"{"number": 20}"#).unwrap(), "Špatné uživatelské jméno nebo heslo");
    assert_eq!(login_failure_from_text(r#"{"number": 7}"#).unwrap(), "Při komunikaci se serverem došlo k chybě");
    assert!(login_failure_from_text(r#"{"number": "20"}"#).is_none());
    assert!(login_failure_from_text("oops").is_none());
}

#[test]
fn order_replies_are_read_from_text() {
    assert!(matches!(order_reply_from_text(200, r#"{"konto":"99.5"}"#), Some(OrderReply::Balance(ref b)) if b == "99.5"));
    assert!(matches!(order_reply_from_text(400, r#"{"message":"Nelze"}"#), Some(OrderReply::Failed(ref m)) if m == "Nelze"));
    assert!(matches!(order_reply_from_text(200, r#"{}"#), Some(OrderReply::Failed(ref m)) if m == "Došlo k chybě serveru, zkuste to znovu později"));
    assert!(matches!(order_reply_from_text(200, "not json"), Some(OrderReply::Failed(ref m)) if m == "Došlo k chybě serveru, zkuste to znovu později"));
    assert!(order_reply_from_text(200, r#"{"konto": 3}"#).is_none());
}

#[test]
fn save_replies_are_read_from_text() {
    assert_eq!(save_reply_from_text(200, "whatever"), Some(Ok(())));
    assert_eq!(save_reply_from_text(503, r#"{"message":"Chyba"}"#), Some(Err("Chyba".to_string())));
    assert_eq!(save_reply_from_text(404, ""), Some(Err("Došlo k chybě serveru, zkuste to znovu později".to_string())));
    assert_eq!(save_reply_from_text(500, "{}"), None);
    assert_eq!(save_reply_from_text(500, "x"), None);
}

const MENU_TEXT: &str = r#"{
  "table0": [{"popis":"Oběd 1","nazev":"Guláš","veta":"21","pocet":1,"alergeny":[],"datum":"02.01.2024"}],
  "table1": [{"popis":"Polévka","nazev":"Vývar","veta":"11","pocet":0,"alergeny":[["01","x"]],"datum":"03.01.2024"}]
}"#;

const MENU_TEXT_SWAPPED: &str = r#"{
  "b": [{"popis":"Polévka","nazev":"Vývar","veta":"11","pocet":0,"alergeny":[["01","x"]],"datum":"03.01.2024"}],
  "a": [{"popis":"Oběd 1","nazev":"Guláš","veta":"21","pocet":1,"alergeny":[],"datum":"02.01.2024"}]
}"#;

#[test]
fn menus_are_read_from_text() {
    let m = menu_from_text(MENU_TEXT).unwrap();
    assert_eq!(days(&m), vec![
        ((2024, 1, 2), "Úterý".to_string(), vec![("Oběd 1 - Guláš".to_string(), "21".to_string(), true)]),
        ((2024, 1, 3), "Středa".to_string(), vec![("Polévka - Vývar".to_string(), "11".to_string(), false)]),
    ]);
    assert!(menu_from_text("[]").is_none());
    assert!(menu_from_text(r#"{"t": [{"popis":"x"}]}"#).is_none());
    assert!(menu_from_text("not json").is_none());
}

#[test]
fn menus_do_not_depend_on_member_names_or_order() {
    let a = menu_from_text(MENU_TEXT).unwrap();
    let b = menu_from_text(MENU_TEXT_SWAPPED).unwrap();
    assert_eq!(days(&a), days(&b));
}

#[test]
fn canteen_menus_are_read_from_text() {
    let menu = cantine_menu_from_text(r#"[{"d1": [{"nazev":" Guláš ","alergeny":[["1 Lepek"]]}]}]"#).unwrap();
    assert_eq!(menu.len(), 1);
    assert_eq!((menu[0].name.as_str(), menu[0].allergens.clone()), ("Guláš", vec!["Lepek".to_string()]));
    assert_eq!(cantine_menu_from_text("{bad").unwrap_err(), "Failed to parse cantine menu");
}

#[test]
fn settings_strings_are_read_from_request_bodies() {
    assert!(matches!(settings_string_item(&SettingsItemKind::Strategy, r#""cancel""#), Some(SettingsData::Strategy(ref s)) if s == "cancel"));
    assert!(matches!(settings_string_item(&SettingsItemKind::Allergen, r#""07""#), Some(SettingsData::Allergen(ref s)) if s == "07"));
    assert!(settings_string_item(&SettingsItemKind::Strategy, "cancel").is_none());
}

#[test]
fn dates_are_written_as_day_month_year_and_weekday() {
    assert_eq!(Date::parse("3.4.2024").unwrap().to_text(), "03.04.2024 Středa");
    assert_eq!(Date::parse("01.01.0987").unwrap().to_text(), "01.01.0987 Pondělí");
    let before_common_era = Date::parse("01.01.4294967295").unwrap();
    assert_eq!(before_common_era.year, -1);
    assert_eq!(before_common_era.to_text(), "01.01.-0001 Pátek");
    assert!(Date::parse("01.01.10000").unwrap().to_text().starts_with("01.01.+10000 "));
    assert!(is_valid_date(2024, 2, 29));
    assert!(!is_valid_date(2023, 2, 29));
    assert!(!is_valid_date(2024, 13, 1));
}

fn dish_menu() -> Menu {
    menu_from_text(r#"{"t": [
        {"popis":"Oběd 1","nazev":"Guláš","veta":"1","pocet":1,"alergeny":[["01","x"]],"datum":"02.01.2024"},
        {"popis":"Oběd 2","nazev":"Řízek","veta":"2","pocet":1,"alergeny":[["07","x"]],"datum":"02.01.2024"}
    ]}"#)
    .unwrap()
}

fn settings(dishes: Vec<DishDBEntry>, allergens: Vec<&str>) -> OrdersCancelingSettings {
    OrdersCancelingSettings {
        blacklisted_dishes: dishes,
        whitelisted_dishes: vec![],
        blacklisted_allergens: allergens.into_iter().map(String::from).collect(),
        strategy: "cancel".to_string(),
    }
}

fn planned(s: &OrdersCancelingSettings, menu: &Menu) -> Vec<(String, u8)> {
    match plan_orders(s, menu).unwrap() {
        OrderPlan::Submit(v) => v.into_iter().map(|o| (o.dish_id, o.amount)).collect(),
        OrderPlan::Disabled => panic!("disabled"),
    }
}

#[test]
fn growing_the_blacklists_keeps_the_cancellations() {
    let menu = dish_menu();
    let small = settings(vec![], vec!["07"]);
    let large = settings(vec![DishDBEntry { name: "Guláš".to_string(), allergens: vec!["01".to_string()] }], vec!["07", "03"]);
    assert_eq!(planned(&small, &menu), vec![("2".to_string(), 0)]);
    assert_eq!(planned(&large, &menu), vec![("1".to_string(), 0)]);
    assert!(planned(&settings(vec![], vec![]), &menu).is_empty());
}
