use strava_client::date::Date;
use strava_client::json::{Json, to_json_string};
use strava_client::menu::parse_menu;
use strava_client::requests::url_encode;
use strava_client::settings::{DishDBEntry, OrderPlan, OrdersCancelingSettings, plan_orders};
use strava_client::cantine::parse_cantine_menu;

fn s(x: &str) -> Json {
    Json::Str(x.to_string())
}

fn obj(members: Vec<(&str, Json)>) -> Json {
    Json::Object(members.into_iter().map(|(k, v)| (k.to_string(), v)).collect())
}

fn dish(name: &str, veta: &str, pocet: i64, allergen: &str, datum: &str) -> Json {
    obj(vec![
        ("popis", s("Oběd")),
        ("nazev", s(name)),
        ("veta", s(veta)),
        ("pocet", Json::Number(Some(pocet))),
        ("alergeny", Json::Array(vec![Json::Array(vec![s(allergen)])])),
        ("datum", s(datum)),
    ])
}

#[test]
fn planned_orders_name_dishes_of_the_menu() {
    let menu = parse_menu(obj(vec![
        ("a", Json::Array(vec![dish("A", "1", 1, "03", "8.1.2024"), dish("B", "2", 0, "03", "8.1.2024"), dish("C", "3", 1, "05", "8.1.2024")])),
        ("b", Json::Array(vec![dish("D", "4", 1, "03", "9.1.2024"), dish("E", "5", 0, "07", "9.1.2024")])),
    ]));
    let ids: Vec<(String, bool)> = menu.values().flat_map(|d| d.dishes.values().map(|i| (i.id.clone(), i.order_state))).collect();
    for strategy in ["cancel", "replace", "cancelAll"] {
        let settings = OrdersCancelingSettings {
            blacklisted_dishes: vec![DishDBEntry { name: "C".to_string(), allergens: vec!["05".to_string()] }],
            whitelisted_dishes: vec![],
            blacklisted_allergens: vec!["03".to_string()],
            strategy: strategy.to_string(),
        };
        match plan_orders(&settings, &menu) {
            Ok(OrderPlan::Submit(orders)) => {
                for o in orders {
                    let known = ids.iter().find(|(id, _)| *id == o.dish_id).expect("a dish of the menu");
                    if o.amount == 0 {
                        assert!(known.1, "a cancelled dish is ordered");
                    }
                }
            },
            _ => panic!("orders expected"),
        }
    }
}

#[test]
fn url_encoding_gives_only_url_safe_characters() {
    let e = url_encode("Žluťoučký kůň / ?&=#\n\"");
    assert!(e.chars().all(|c| c.is_ascii_alphanumeric() || "-._~%".contains(c)));
}

#[test]
fn json_strings_hold_no_raw_control_characters() {
    let j = to_json_string("a\u{0}b\u{1b}\"c\n");
    let inner: Vec<char> = j.chars().collect();
    assert!(inner.iter().all(|c| (*c as u32) >= 32));
    for (i, c) in inner[1..inner.len() - 1].iter().enumerate() {
        if *c == '"' {
            assert_eq!(inner[i], '\\');
        }
    }
}

#[test]
fn dates_of_the_same_day_have_the_same_weekday_name() {
    let a = Date::parse("7.3.2024").unwrap();
    let b = Date::parse("07.03.2024").unwrap();
    assert!(a == b);
    assert_eq!(a.day_of_week, b.day_of_week);
    assert_eq!(a.day_of_week, "Čtvrtek");
}

#[test]
fn canteen_history_entries_are_clean() {
    let day = Json::Array(vec![
        obj(vec![("nazev", s(" \tPečeně ")), ("alergeny", Json::Array(vec![Json::Array(vec![s(" 1a Lepek 7 ")])]))]),
    ]);
    let menu = parse_cantine_menu(Json::Array(vec![obj(vec![("d", day)])]));
    assert_eq!(menu.len(), 1);
    assert_eq!(menu[0].name, "Pečeně");
    for a in &menu[0].allergens {
        assert!(!a.chars().any(|c| c.is_ascii_digit()));
        assert_eq!(a.trim(), a);
    }
    assert_eq!(menu[0].allergens, vec!["a Lepek".to_string()]);
}
