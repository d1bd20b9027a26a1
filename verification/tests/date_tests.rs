use std::cmp::Ordering;
use strava_client::date::Date;

fn date(text: &str) -> Date {
    Date::parse(text).expect("a date")
}

#[test]
fn date_parses_day_month_year() {
    let d = date("1.1.2024");
    assert_eq!((d.year, d.month, d.day), (2024, 1, 1));
    assert_eq!(d.day_of_week, "Pondělí");
}

#[test]
fn date_names_every_weekday_in_czech() {
    let names: Vec<String> = (1..=7).map(|day| date(&format!("{}.1.2024", day)).day_of_week).collect();
    assert_eq!(names, vec!["Pondělí", "Úterý", "Středa", "Čtvrtek", "Pátek", "Sobota", "Neděle"]);
}

#[test]
fn date_new_reads_leading_zeros() {
    let d = Date::new("05.03.2024".to_string());
    assert_eq!((d.year, d.month, d.day), (2024, 3, 5));
    assert_eq!(d.day_of_week, "Úterý");
}

#[test]
fn date_accepts_plus_sign_and_ignores_extra_pieces() {
    let d = date("+29.2.2024.7");
    assert_eq!((d.year, d.month, d.day), (2024, 2, 29));
    assert_eq!(d.day_of_week, "Čtvrtek");
}

#[test]
fn date_refuses_what_names_no_day() {
    assert!(Date::parse("29.2.2023").is_none());
    assert!(Date::parse("31.4.2024").is_none());
    assert!(Date::parse("0.1.2024").is_none());
    assert!(Date::parse("1.13.2024").is_none());
    assert!(Date::parse("1.1").is_none());
    assert!(Date::parse("").is_none());
    assert!(Date::parse("1.1.2024.x").is_none());
    assert!(Date::parse("a.1.2024").is_none());
    assert!(Date::parse(" 1.1.2024").is_none());
    assert!(Date::parse("1.1.99999999999").is_none());
    assert!(Date::parse("1.1.300000").is_none());
}

#[test]
fn date_reads_a_year_above_i32_as_its_bits() {
    // 4294967295 as i32 is -1, a year that exists in the proleptic calendar
    let d = date("1.1.4294967295");
    assert_eq!(d.year, -1);
}

#[test]
fn date_equality_ignores_the_day_name() {
    let a = date("2.1.2024");
    let mut b = date("2.1.2024");
    b.day_of_week = "x".to_string();
    assert!(a == b);
    assert!(a != date("3.1.2024"));
}

#[test]
fn date_order_is_chronological() {
    assert_eq!(date("31.12.2023").partial_cmp(&date("1.1.2024")), Some(Ordering::Less));
    assert_eq!(date("1.2.2024").partial_cmp(&date("31.1.2024")), Some(Ordering::Greater));
    assert_eq!(date("1.2.2024").partial_cmp(&date("01.02.2024")), Some(Ordering::Equal));
    assert!(date("1.3.2024") > date("29.2.2024"));
}

#[test]
fn date_text_reads_back_to_the_same_date() {
    for text in ["3.4.2024", "29.2.2000", "1.1.0", "31.12.9999", "01.01.10000", "+7.7.77"] {
        let d = Date::parse(text).unwrap();
        let written = d.to_text();
        let date_part = written.split(' ').next().unwrap();
        let back = Date::new(date_part.to_string());
        assert_eq!((back.year, back.month, back.day), (d.year, d.month, d.day));
        assert_eq!(back.day_of_week, d.day_of_week);
        assert_eq!(written, format!("{} {}", date_part, d.day_of_week));
    }
}
