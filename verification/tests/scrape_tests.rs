use strava_client::json::Json;
use strava_client::menu::{Menu, parse_menu};
use strava_client::scrape::{heading_date, merge_scraped, non_empty_texts, scrape_page, scraped_dish_name, scraper_user_menu};

fn s(x: &str) -> Json {
    Json::Str(x.to_string())
}

fn obj(members: Vec<(&str, Json)>) -> Json {
    Json::Object(members.into_iter().map(|(k, v)| (k.to_string(), v)).collect())
}

fn api_menu() -> Menu {
    let dish = |popis: &str, nazev: &str, veta: &str, datum: &str| {
        obj(vec![
            ("popis", s(popis)),
            ("nazev", s(nazev)),
            ("veta", s(veta)),
            ("pocet", Json::Number(Some(0))),
            ("alergeny", Json::Array(vec![])),
            ("datum", s(datum)),
        ])
    };
    parse_menu(obj(vec![(
        "t",
        Json::Array(vec![dish("Oběd 1", "Guláš", "77", "02.01.2024"), dish("Oběd 2", "Řízek", "78", "02.01.2024")]),
    )]))
}

const PAGE: &str = r#"<html><body>
<div id="day-2024-01-02"><h2><label>Út 02.01.2024</label></h2>
<div class="InputHolder"><span><span><span>Oběd 1</span></span></span><span><span><span> - Guláš </span></span></span><button><span>01</span><span></span></button><button id="table1"><svg></svg></button></div>
<div class="InputHolder"><span><span><span>Neznámé</span></span></span></div>
</div>
<div id="day-2025-01-03"><h2><label>Pá 03.01.2025</label></h2>
<div class="InputHolder"><span><span><span>Oběd 1 - Guláš</span></span></span></div>
</div>
<div id="other"><h2><label>x</label></h2></div>
</body></html>"#;

#[test]
fn scrape_page_reads_days_of_this_and_the_next_year() {
    let days = scrape_page(PAGE, 2024).unwrap();
    assert_eq!(days.len(), 2);
    assert_eq!(days[0].labels, vec!["Út 02.01.2024".to_string()]);
    assert_eq!(days[0].dishes.len(), 2);
    assert_eq!(days[0].dishes[0].allergen_texts, vec!["01".to_string(), "".to_string()]);
    assert_eq!(days[0].dishes[0].order_marks.len(), 1);
    assert_eq!(days[0].dishes[1].order_marks.len(), 0);
    assert_eq!(days[1].labels, vec!["Pá 03.01.2025".to_string()]);
}

#[test]
fn scraped_menu_keeps_dishes_that_the_api_knows() {
    let menu = scraper_user_menu(&api_menu(), PAGE, 2024).unwrap();
    let days: Vec<_> = menu.iter().collect();
    assert_eq!(days.len(), 1);
    assert_eq!(*days[0].0, (2024, 1, 2));
    assert_eq!(days[0].1.date.day_of_week, "Úterý");
    let dishes: Vec<_> = days[0].1.dishes.iter().collect();
    assert_eq!(dishes.len(), 1);
    assert_eq!(dishes[0].0, "Oběd 1 - Guláš");
    assert_eq!(dishes[0].1.id, "77");
    assert_eq!(dishes[0].1.allergens, vec!["01".to_string()]);
    assert!(dishes[0].1.order_state);
}

#[test]
fn a_heading_without_a_date_stops_the_merge() {
    let days = scrape_page(r#"<div id="2024"><h2><label>bad heading</label></h2></div>"#, 2024).unwrap();
    assert!(merge_scraped(&api_menu(), &days).is_none());
    let none = scrape_page(r#"<div id="2024"><p>no heading</p></div>"#, 2024).unwrap();
    assert_eq!(merge_scraped(&api_menu(), &none).unwrap().len(), 0);
}

#[test]
fn heading_dates_and_names_are_read_from_their_pieces() {
    assert_eq!(heading_date("Út 02.01.2024"), "02.01.2024");
    assert_eq!(heading_date("a b c"), "bc");
    assert_eq!(heading_date("abc"), "");
    let v = |x: &[&str]| x.iter().map(|s| s.to_string()).collect::<Vec<String>>();
    assert_eq!(scraped_dish_name(&v(&[" Oběd 1 ", "", "  ", "- Guláš"])), "Oběd 1 - Guláš");
    assert_eq!(non_empty_texts(&v(&["a", "", " "])), v(&["a", " "]));
}
