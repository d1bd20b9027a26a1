use strava_client::cantine::{CantineData, cantines_from_data, parse_cantine_menu};
use strava_client::json::Json;
use strava_client::reply::{Error, RequestResult, Succes, Unauthorized, database_reply, database_unreachable};
use strava_client::requests::{
    OrderReply, User, cantine_history_url, database_login_failure, default_settings, endpoint_url, login_failure_message, login_failure_reply, login_succeeded, menu_source,
    MenuSource, order_dish_args, read_login_reply, read_order_reply, read_save_reply, settings_query_url, settings_reply, string_member, template_body,
    update_settings_url, url_encode,
};

fn s(x: &str) -> Json {
    Json::Str(x.to_string())
}

fn obj(members: Vec<(&str, Json)>) -> Json {
    Json::Object(members.into_iter().map(|(k, v)| (k.to_string(), v)).collect())
}

#[test]
fn cantine_menu_keeps_named_dishes_with_cleaned_allergens() {
    let day = Json::Array(vec![
        obj(vec![("nazev", s("  Guláš  ")), ("alergeny", Json::Array(vec![Json::Array(vec![s("1 Lepek ")]), s("bad"), Json::Array(vec![])]))]),
        obj(vec![("nazev", s("   ")), ("alergeny", Json::Array(vec![]))]),
        obj(vec![("nazev", s("Bez alergenů"))]),
        obj(vec![("nazev", s("Polévka")), ("alergeny", Json::Array(vec![Json::Array(vec![s("07"), s("x")])]))]),
    ]);
    let menu = Json::Array(vec![obj(vec![("2024-01-02", day), ("2024-01-03", s("no list"))])]);
    let dishes: Vec<(String, Vec<String>)> = parse_cantine_menu(menu).into_iter().map(|d| (d.name, d.allergens)).collect();
    assert_eq!(dishes, vec![
        ("Guláš".to_string(), vec!["Lepek".to_string()]),
        ("Polévka".to_string(), vec!["".to_string()]),
    ]);
}

#[test]
fn cantine_menu_of_an_unexpected_shape_is_empty() {
    assert!(parse_cantine_menu(Json::Null).is_empty());
    assert!(parse_cantine_menu(Json::Array(vec![])).is_empty());
    assert!(parse_cantine_menu(Json::Array(vec![s("x")])).is_empty());
}

#[test]
fn cantines_are_named_by_name_town_and_street() {
    let v = |x: &[&str]| x.iter().map(|s| s.to_string()).collect::<Vec<String>>();
    let data = vec![
        CantineData { v_mesto: v(&["Praha"]), v_ulice: v(&["Dlouhá 1 "]), v_nazev: v(&[" ZŠ Praha"]), zarizeni: v(&[" 1234 "]) },
        CantineData { v_mesto: v(&["Brno"]), v_ulice: v(&[]), v_nazev: v(&["MŠ"]), zarizeni: v(&["5"]) },
        CantineData { v_mesto: v(&["Brno"]), v_ulice: v(&["x"]), v_nazev: v(&[""]), zarizeni: v(&["6"]) },
    ];
    let c: Vec<(String, String)> = cantines_from_data(data).into_iter().map(|c| (c.id, c.name)).collect();
    assert_eq!(c, vec![("1234".to_string(), "ZŠ Praha, Praha, Dlouhá 1".to_string())]);
}

#[test]
fn replies_are_tagged() {
    assert_eq!(Succes::new(5).data, 5);
    assert_eq!(Succes::new(5)._t, "success");
    let e: Error<String> = Error::new("x".to_string());
    assert_eq!(e._t, "failure");
    assert_eq!(e.error, "x");
    assert_eq!(Unauthorized::new()._t, "unauthorized");
}

#[test]
fn database_replies_follow_the_status() {
    assert!(matches!(database_reply(200, true, Some(1), None), RequestResult::Succes(Succes { data: 1, .. })));
    assert!(matches!(database_reply::<i32>(401, true, None, None), RequestResult::Unauthorized(_)));
    match database_reply::<i32>(401, false, None, Some("no".to_string())) {
        RequestResult::Error(e) => assert_eq!(e.error, "no"),
        _ => panic!(),
    }
    match database_unreachable::<i32>() {
        RequestResult::Error(e) => assert_eq!(e.error, "Došlo k chybě serveru při načítání dat z databáze, zkuste to znovu později"),
        _ => panic!(),
    }
}

#[test]
fn unmodified_settings_are_the_defaults() {
    match settings_reply(304, None, None) {
        RequestResult::Succes(s) => {
            assert_eq!(s.data.strategy, "replace");
            assert!(s.data.blacklisted_dishes.is_empty() && s.data.whitelisted_dishes.is_empty() && s.data.blacklisted_allergens.is_empty());
        },
        _ => panic!(),
    }
    assert!(matches!(settings_reply(401, None, None), RequestResult::Unauthorized(_)));
    assert!(matches!(settings_reply(200, Some(default_settings()), None), RequestResult::Succes(_)));
    assert!(matches!(settings_reply(500, None, Some("boom".to_string())), RequestResult::Error(_)));
}

#[test]
fn url_encoding_escapes_all_but_unreserved_bytes() {
    assert_eq!(url_encode("a-b_c.d~e"), "a-b_c.d~e");
    assert_eq!(url_encode("a b&c"), "a%20b%26c");
    assert_eq!(url_encode("č"), "%C4%8D");
}

#[test]
fn database_addresses_carry_encoded_queries() {
    assert_eq!(endpoint_url("/login"), "https://strava.jumpingcrab.com/login");
    assert_eq!(
        cantine_history_url("12 3", "kuře", "blacklist"),
        "https://strava.jumpingcrab.com/cantine_history?cantine_id=12%203&query=ku%C5%99e&list=blacklist"
    );
    assert_eq!(settings_query_url("a&b", "whitelist"), "https://strava.jumpingcrab.com/settings_query?query=a%26b&list=whitelist");
    assert_eq!(update_settings_url("add", "allergens"), "https://strava.jumpingcrab.com/user_settings?action=add&list=allergens");
}

#[test]
fn ordering_service_bodies_follow_the_template() {
    let args = order_dish_args("42", 1);
    assert_eq!(args, r#""veta":"42","pocet":"1""#);
    assert_eq!(
        template_body("SID", "url", "U", "1234", &args),
        r#"{"lang":"EN","ignoreCert":"false","sid":"SID","url":"U","cislo":"1234","veta":"42","pocet":"1"}"#
    );
}

#[test]
fn login_body_writes_the_user_as_json() {
    let u = User { username: "jan", password: "p\"w", cantine: "1234", lang: "EN", stay_logged: false };
    assert_eq!(u.login_body(), r#"{"heslo":"p\"w","jmeno":"jan","cislo":"1234","lang":"EN","zustatPrihlasen":false}"#);
    let v: serde_json::Value = serde_json::from_str(&u.login_body()).unwrap();
    assert_eq!(v["heslo"], "p\"w");
}

#[test]
fn login_replies_are_read() {
    let reply = obj(vec![("sid", s("S")), ("s5url", s("U")), ("uzivatel", obj(vec![("jmeno", s("Jan")), ("konto", s("12.50"))]))]);
    let r = read_login_reply(&reply).unwrap();
    assert_eq!((r.sid, r.url, r.username, r.account), ("S".to_string(), "U".to_string(), "Jan".to_string(), "12.50".to_string()));
    assert!(read_login_reply(&obj(vec![("sid", s("S"))])).is_none());
    assert!(login_succeeded(200) && login_succeeded(300) && !login_succeeded(301) && !login_succeeded(199));
    assert_eq!(login_failure_message(20), "Špatné uživatelské jméno nebo heslo");
    assert_eq!(login_failure_message(5), "Při komunikaci se serverem došlo k chybě");
    assert_eq!(database_login_failure(200), None);
    assert_eq!(database_login_failure(401), Some("Špatné uživatelské jméno nebo heslo".to_string()));
    assert_eq!(database_login_failure(500), Some("Došlo k chybě serveru při načítání dat z databáze, zkuste to znovu později".to_string()));
}

#[test]
fn order_replies_are_read() {
    match read_order_reply(200, &Some(obj(vec![("konto", s("99.5"))]))) {
        OrderReply::Balance(b) => assert_eq!(b, "99.5"),
        _ => panic!(),
    }
    match read_order_reply(400, &Some(obj(vec![("message", s("Nelze"))]))) {
        OrderReply::Failed(m) => assert_eq!(m, "Nelze"),
        _ => panic!(),
    }
    match read_order_reply(200, &None) {
        OrderReply::Failed(m) => assert_eq!(m, "Došlo k chybě serveru, zkuste to znovu později"),
        _ => panic!(),
    }
    assert_eq!(read_save_reply(200, &None), Ok(()));
    assert_eq!(read_save_reply(550, &Some(obj(vec![("message", s("x"))]))), Err("x".to_string()));
    assert_eq!(read_save_reply(404, &None), Err("Došlo k chybě serveru, zkuste to znovu později".to_string()));
    assert_eq!(string_member(&obj(vec![("message", s("m"))]), "message"), Some("m".to_string()));
}

#[test]
fn menu_source_is_api_or_scraper() {
    assert!(matches!(menu_source("api"), Ok(MenuSource::Api)));
    assert!(matches!(menu_source("scraper"), Ok(MenuSource::Scraper)));
    assert_eq!(menu_source("x").err(), Some("Chybná konfigurace způsobu získání dat v souboru config.toml".to_string()));
}

#[test]
fn wrong_credentials_make_an_unauthorized_reply() {
    let r: RequestResult<u8, String> = login_failure_reply("Špatné uživatelské jméno nebo heslo".to_string());
    assert!(matches!(r, RequestResult::Unauthorized(ref u) if u._t == "unauthorized"));
    let r: RequestResult<u8, String> = login_failure_reply("Při komunikaci se serverem došlo k chybě".to_string());
    assert!(matches!(r, RequestResult::Error(ref e) if e.error == "Při komunikaci se serverem došlo k chybě" && e._t == "failure"));
}
