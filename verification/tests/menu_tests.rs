use strava_client::json::Json;
use strava_client::menu::{Menu, check_menu, parse_menu, try_parse_menu};
use strava_client::settings::{DishDBEntry, OrderPlan, OrdersCancelingSettings, plan_orders};

fn s(x: &str) -> Json {
    Json::Str(x.to_string())
}

fn obj(members: Vec<(&str, Json)>) -> Json {
    Json::Object(members.into_iter().map(|(k, v)| (k.to_string(), v)).collect())
}

fn dish(popis: &str, nazev: &str, veta: &str, pocet: i64, allergens: &[&str], datum: &str) -> Json {
    obj(vec![
        ("popis", s(popis)),
        ("nazev", s(nazev)),
        ("veta", s(veta)),
        ("pocet", Json::Number(Some(pocet))),
        ("alergeny", Json::Array(allergens.iter().map(|a| Json::Array(vec![s(a), s("popis")])).collect())),
        ("datum", s(datum)),
    ])
}

fn sample_menu() -> Json {
    obj(vec![
        ("table1", Json::Array(vec![
            dish(" Polévka ", " Kuřecí vývar ", "11", 1, &["01", "09"], "03.01.2024"),
            dish("Oběd 1", "Řízek", "12", 0, &["03"], "03.01.2024"),
        ])),
        ("table0", Json::Array(vec![
            dish("Oběd 1", "Guláš", "21", 1, &[], "02.01.2024"),
        ])),
    ])
}

fn days(menu: &Menu) -> Vec<((i32, u32, u32), String, Vec<(String, String, Vec<String>, bool)>)> {
    menu.iter()
        .map(|(k, d)| {
            (*k, d.date.day_of_week.clone(), d.dishes.iter().map(|(n, i)| (n.clone(), i.id.clone(), i.allergens.clone(), i.order_state)).collect())
        })
        .collect()
}

#[test]
fn parse_menu_reads_days_sorted_by_date() {
    let menu = parse_menu(sample_menu());
    let d = days(&menu);
    assert_eq!(d.len(), 2);
    assert_eq!(d[0].0, (2024, 1, 2));
    assert_eq!(d[0].1, "Úterý");
    assert_eq!(d[0].2, vec![("Oběd 1 - Guláš".to_string(), "21".to_string(), vec![], true)]);
    assert_eq!(d[1].0, (2024, 1, 3));
    assert_eq!(d[1].1, "Středa");
    assert_eq!(d[1].2[0], ("Polévka - Kuřecí vývar".to_string(), "11".to_string(), vec!["01".to_string(), "09".to_string()], true));
    assert_eq!(d[1].2[1], ("Oběd 1 - Řízek".to_string(), "12".to_string(), vec!["03".to_string()], false));
}

#[test]
fn parse_menu_lets_a_later_day_of_the_same_date_replace_an_earlier_one() {
    let j = obj(vec![
        ("a", Json::Array(vec![dish("x", "first", "1", 0, &[], "1.1.2024")])),
        ("b", Json::Array(vec![dish("x", "second", "2", 0, &[], "01.01.2024")])),
    ]);
    let d = days(&parse_menu(j));
    assert_eq!(d.len(), 1);
    assert_eq!(d[0].2[0].1, "2");
}

#[test]
fn parse_menu_keeps_one_dish_per_name() {
    let j = obj(vec![("a", Json::Array(vec![
        dish("x", "y", "1", 0, &[], "1.1.2024"),
        dish("z", "w", "2", 0, &[], "1.1.2024"),
        dish(" x", "y ", "3", 1, &[], "1.1.2024"),
    ]))]);
    let d = days(&parse_menu(j));
    assert_eq!(d[0].2.len(), 2);
    assert_eq!(d[0].2[0], ("x - y".to_string(), "3".to_string(), vec![], true));
    assert_eq!(d[0].2[1].1, "2");
}

#[test]
fn malformed_menus_are_refused() {
    assert!(check_menu(&sample_menu()));
    assert!(try_parse_menu(Json::Array(vec![])).is_none());
    assert!(try_parse_menu(obj(vec![("a", Json::Array(vec![]))])).is_none());
    assert!(try_parse_menu(obj(vec![("a", Json::Array(vec![dish("x", "y", "1", 0, &[], "32.1.2024")]))])).is_none());
    let mut no_count = dish("x", "y", "1", 0, &[], "1.1.2024");
    if let Json::Object(m) = &mut no_count {
        m.retain(|(k, _)| k != "pocet");
    }
    assert!(try_parse_menu(obj(vec![("a", Json::Array(vec![no_count]))])).is_none());
    assert!(try_parse_menu(obj(vec![])).map(|m| m.len()) == Some(0));
}

fn settings(strategy: &str, black: Vec<(&str, Vec<&str>)>, white: Vec<(&str, Vec<&str>)>, allergens: Vec<&str>) -> OrdersCancelingSettings {
    let entry = |(n, a): (&str, Vec<&str>)| DishDBEntry { name: n.to_string(), allergens: a.into_iter().map(String::from).collect() };
    OrdersCancelingSettings {
        blacklisted_dishes: black.into_iter().map(entry).collect(),
        whitelisted_dishes: white.into_iter().map(entry).collect(),
        blacklisted_allergens: allergens.into_iter().map(String::from).collect(),
        strategy: strategy.to_string(),
    }
}

fn orders(plan: Result<OrderPlan, String>) -> Vec<(String, u8)> {
    match plan {
        Ok(OrderPlan::Submit(v)) => v.into_iter().map(|a| (a.dish_id, a.amount)).collect(),
        _ => panic!("no orders"),
    }
}

fn week_menu() -> Menu {
    parse_menu(obj(vec![
        ("d1", Json::Array(vec![
            dish("Polévka", "Vývar", "11", 1, &["09"], "2.1.2024"),
            dish("Oběd 1", "Řízek", "12", 1, &["03"], "2.1.2024"),
            dish("Oběd 2", "Guláš", "13", 0, &["01"], "2.1.2024"),
            dish("Oběd 3", "Salát", "14", 0, &["07"], "2.1.2024"),
        ])),
        ("d2", Json::Array(vec![
            dish("Oběd 1", "Řízek", "22", 0, &["03"], "3.1.2024"),
            dish("Oběd 2", "Knedlík", "23", 1, &[], "3.1.2024"),
        ])),
    ]))
}

#[test]
fn cancel_strategy_cancels_the_first_blacklisted_ordered_dish_of_each_day() {
    let st = settings("cancel", vec![("Řízek", vec!["03"])], vec![], vec!["09"]);
    assert_eq!(orders(plan_orders(&st, &week_menu())), vec![("11".to_string(), 0)]);
    let st = settings("cancel", vec![("Řízek", vec!["03"])], vec![], vec![]);
    assert_eq!(orders(plan_orders(&st, &week_menu())), vec![("12".to_string(), 0)]);
}

#[test]
fn cancel_strategy_matches_a_blacklisted_dish_by_name_and_allergens() {
    let st = settings("cancel", vec![("Řízek", vec![])], vec![], vec![]);
    assert_eq!(orders(plan_orders(&st, &week_menu())), vec![]);
}

#[test]
fn cancel_all_cancels_every_ordered_dish() {
    let st = settings("cancelAll", vec![], vec![], vec![]);
    assert_eq!(orders(plan_orders(&st, &week_menu())), vec![("11".to_string(), 0), ("12".to_string(), 0), ("23".to_string(), 0)]);
}

#[test]
fn replace_strategy_orders_a_replacement_after_a_cancellation() {
    let st = settings("replace", vec![], vec![], vec!["03", "01"]);
    // day 1: the first ordered dish with a blacklisted allergen is 12; candidates are the
    // dishes not blacklisted by full name that share an allergen: 12 and 13
    assert_eq!(orders(plan_orders(&st, &week_menu())), vec![("12".to_string(), 0), ("12".to_string(), 1)]);
    let st = settings("replace", vec![], vec![("Oběd 2 - Guláš", vec!["01"])], vec!["03", "01"]);
    assert_eq!(orders(plan_orders(&st, &week_menu())), vec![("12".to_string(), 0), ("13".to_string(), 1)]);
}

#[test]
fn replace_strategy_without_candidates_only_cancels() {
    let st = settings("replace", vec![("Řízek", vec!["03"]), ("Oběd 1 - Řízek", vec!["03"])], vec![], vec![]);
    assert_eq!(orders(plan_orders(&st, &week_menu())), vec![("12".to_string(), 0)]);
}

#[test]
fn disabled_strategy_plans_nothing_and_others_are_refused() {
    let st = settings("disabled", vec![], vec![], vec!["03"]);
    assert!(matches!(plan_orders(&st, &week_menu()), Ok(OrderPlan::Disabled)));
    let st = settings("whatever", vec![], vec![], vec![]);
    assert_eq!(plan_orders(&st, &week_menu()).err(), Some("Unknown strategy".to_string()));
}

#[test]
fn cancel_sends_at_most_one_order_a_day() {
    let st = settings("cancel", vec![], vec![], vec!["03", "09", "01"]);
    let o = orders(plan_orders(&st, &week_menu()));
    assert!(o.len() <= 2);
    assert!(o.iter().all(|(_, a)| *a == 0));
}

#[test]
fn dish_entries_compare_by_name_and_allergens() {
    let a = DishDBEntry { name: "x".to_string(), allergens: vec!["1".to_string()] };
    let b = DishDBEntry { name: "x".to_string(), allergens: vec!["1".to_string()] };
    let c = DishDBEntry { name: "x".to_string(), allergens: vec![] };
    assert!(a == b);
    assert!(a != c);
}
