use vstd::prelude::*;
use vstd::string::*;
use scraper::{Html, Selector};
use crate::date::{Date, czech_weekday, date_fields, weekday_from_monday};
use crate::entries::{key_index, lemma_key_index, upsert};
use crate::menu::{DayKey, DayMenu, DayView, DishInfo, DishView, Menu, day_get, day_view, days_of, dish_get, dishes_len, dishes_of, insert_day, insert_dish, new_dishes, new_menu};
use crate::text::{chars_of, i32_string, pieces, push_char, signed_decimal, split, split_ranges, string_of, trim, trim_str};

verus! {

/// The HTML of the elements of a document that a CSS selector picks, in
/// document order, as scraper finds them; none where scraper refuses the
/// selector.
pub uninterp spec fn document_selection(html: Seq<char>, selector: Seq<char>) -> Option<Seq<Seq<char>>>;

/// The inner HTML of the elements of an HTML fragment that a CSS selector
/// picks, as scraper finds them; none where scraper refuses the selector.
pub uninterp spec fn fragment_selection(html: Seq<char>, selector: Seq<char>) -> Option<Seq<Seq<char>>>;

/// How many elements of an HTML fragment a CSS selector picks, as scraper
/// counts them; none where scraper refuses the selector.
pub uninterp spec fn fragment_count(html: Seq<char>, selector: Seq<char>) -> Option<usize>;

/// The inner HTML of the elements under the `index`-th element that `outer`
/// picks in an HTML fragment and that `inner` picks, as scraper finds them;
/// none where scraper refuses a selector or there is no such element.
pub uninterp spec fn nested_selection(html: Seq<char>, outer: Seq<char>, index: usize, inner: Seq<char>) -> Option<Seq<Seq<char>>>;

pub open spec fn strings_opt(r: Option<Vec<String>>) -> Option<Seq<Seq<char>>> {
    match r {
        Some(v) => Some(v.deep_view()),
        None => None,
    }
}

/// scraper: `Selector::parse`, `Html::parse_document`, `select` and `html`
/// of each element picked. Claimed: the result is `document_selection` of
/// the arguments.
#[verifier::external_body]
fn select_in_document(html: &str, selector: &str) -> (r: Option<Vec<String>>)
    ensures
        strings_opt(r) == document_selection(html@, selector@),
{
    let sel = Selector::parse(selector).ok()?;
    let mut out = Vec::new();
    for e in Html::parse_document(html).select(&sel) {
        out.push(e.html());
    }
    Some(out)
}

/// scraper: `Selector::parse`, `Html::parse_fragment`, `select` and
/// `inner_html` of each element picked. Claimed: the result is
/// `fragment_selection` of the arguments.
#[verifier::external_body]
fn select_in_fragment(html: &str, selector: &str) -> (r: Option<Vec<String>>)
    ensures
        strings_opt(r) == fragment_selection(html@, selector@),
{
    let sel = Selector::parse(selector).ok()?;
    let mut out = Vec::new();
    for e in Html::parse_fragment(html).select(&sel) {
        out.push(e.inner_html());
    }
    Some(out)
}

/// scraper: `Selector::parse`, `Html::parse_fragment` and the number of
/// elements that `select` picks. Claimed: the result is `fragment_count` of
/// the arguments.
#[verifier::external_body]
fn count_in_fragment(html: &str, selector: &str) -> (r: Option<usize>)
    ensures
        r == fragment_count(html@, selector@),
{
    let sel = Selector::parse(selector).ok()?;
    Some(Html::parse_fragment(html).select(&sel).count())
}

/// scraper: `Html::parse_fragment`, the `index`-th element that `outer`
/// picks, and `inner_html` of each element under it that `inner` picks.
/// Claimed: the result is `nested_selection` of the arguments.
#[verifier::external_body]
fn select_nested(html: &str, outer: &str, index: usize, inner: &str) -> (r: Option<Vec<String>>)
    ensures
        strings_opt(r) == nested_selection(html@, outer@, index, inner@),
{
    let (o, i) = (Selector::parse(outer).ok()?, Selector::parse(inner).ok()?);
    let fragment = Html::parse_fragment(html);
    let element = fragment.select(&o).nth(index)?;
    let mut out = Vec::new();
    for x in element.select(&i) {
        out.push(x.inner_html());
    }
    Some(out)
}

/// What the menu page shows of a dish: the texts of its allergens, the marks
/// that it is ordered, and the pieces of its name.
pub struct ScrapedDish {
    pub allergen_texts: Vec<String>,
    pub order_marks: Vec<String>,
    pub name_texts: Vec<String>,
}

/// What the menu page shows of a day: the labels of its heading and its dishes.
pub struct ScrapedDay {
    pub labels: Vec<String>,
    pub dishes: Vec<ScrapedDish>,
}

pub type DishTexts = (Seq<Seq<char>>, Seq<Seq<char>>, Seq<Seq<char>>);

pub type DayTexts = (Seq<Seq<char>>, Seq<DishTexts>);

pub open spec fn dish_texts_view(d: ScrapedDish) -> DishTexts {
    (d.allergen_texts.deep_view(), d.order_marks.deep_view(), d.name_texts.deep_view())
}

pub open spec fn day_texts_view(d: ScrapedDay) -> DayTexts {
    (d.labels.deep_view(), Seq::new(d.dishes@.len(), |i: int| dish_texts_view(d.dishes@[i])))
}

pub open spec fn days_texts_view(v: Seq<ScrapedDay>) -> Seq<DayTexts> {
    Seq::new(v.len(), |i: int| day_texts_view(v[i]))
}

/// The selector of the days of a year on the menu page.
pub open spec fn day_selector(year: int) -> Seq<char> {
    "div[id*='"@ + signed_decimal(year) + "']"@
}

pub open spec fn dishes_selector() -> Seq<char> {
    ".InputHolder"@
}

pub open spec fn label_selector() -> Seq<char> {
    "h2 > label"@
}

pub open spec fn allergens_selector() -> Seq<char> {
    "button > span"@
}

pub open spec fn order_selector() -> Seq<char> {
    "button[id*='table'] > svg"@
}

pub open spec fn name_selector() -> Seq<char> {
    "span >span>span"@
}

/// What the page shows of the `i`-th dish of a day.
pub open spec fn dish_texts(h: Seq<char>, i: usize) -> Option<DishTexts> {
    match (
        nested_selection(h, dishes_selector(), i, allergens_selector()),
        nested_selection(h, dishes_selector(), i, order_selector()),
        nested_selection(h, dishes_selector(), i, name_selector()),
    ) {
        (Some(a), Some(o), Some(n)) => Some((a, o, n)),
        _ => None,
    }
}

/// What the page shows of the first `n` dishes of a day.
pub open spec fn dishes_texts(h: Seq<char>, n: nat) -> Option<Seq<DishTexts>>
    decreases n,
{
    if n == 0 {
        Some(Seq::empty())
    } else {
        match (dishes_texts(h, (n - 1) as nat), dish_texts(h, (n - 1) as usize)) {
            (Some(s), Some(d)) => Some(s.push(d)),
            _ => None,
        }
    }
}

/// What the page shows of a day, given the day's HTML.
pub open spec fn day_texts(h: Seq<char>) -> Option<DayTexts> {
    match (fragment_selection(h, label_selector()), fragment_count(h, dishes_selector())) {
        (Some(l), Some(n)) => match dishes_texts(h, n as nat) {
            Some(ds) => Some((l, ds)),
            None => None,
        },
        _ => None,
    }
}

pub open spec fn days_texts(hs: Seq<Seq<char>>) -> Option<Seq<DayTexts>>
    decreases hs.len(),
{
    if hs.len() == 0 {
        Some(Seq::empty())
    } else {
        match (days_texts(hs.drop_last()), day_texts(hs.last())) {
            (Some(s), Some(d)) => Some(s.push(d)),
            _ => None,
        }
    }
}

/// What the menu page shows: the days of `year` and then those of the next
/// year, each with its labels and dishes.
pub open spec fn page_texts(page: Seq<char>, year: int) -> Option<Seq<DayTexts>> {
    match (document_selection(page, day_selector(year)), document_selection(page, day_selector(year + 1))) {
        (Some(a), Some(b)) => match (days_texts(a), days_texts(b)) {
            (Some(x), Some(y)) => Some(x + y),
            _ => None,
        },
        _ => None,
    }
}

proof fn lemma_dishes_texts_none(h: Seq<char>, i: nat, m: nat)
    requires
        dishes_texts(h, i) is None,
        i <= m,
    ensures
        dishes_texts(h, m) is None,
    decreases m - i,
{
    if i < m {
        lemma_dishes_texts_none(h, i, (m - 1) as nat);
    }
}

proof fn lemma_days_texts_none(hs: Seq<Seq<char>>, k: int)
    requires
        0 <= k <= hs.len(),
        days_texts(hs.take(k)) is None,
    ensures
        days_texts(hs) is None,
    decreases hs.len() - k,
{
    if k < hs.len() {
        assert(hs.take(k + 1).drop_last() =~= hs.take(k));
        lemma_days_texts_none(hs, k + 1);
    } else {
        assert(hs.take(k) =~= hs);
    }
}

fn scrape_dish(h: &str, i: usize) -> (r: Option<ScrapedDish>)
    ensures
        r matches Some(d) ==> dish_texts(h@, i) == Some(dish_texts_view(d)),
        r is None ==> dish_texts(h@, i) is None,
{
    let a = select_nested(h, ".InputHolder", i, "button > span");
    let o = select_nested(h, ".InputHolder", i, "button[id*='table'] > svg");
    let n = select_nested(h, ".InputHolder", i, "span >span>span");
    match (a, o, n) {
        (Some(a), Some(o), Some(n)) => Some(ScrapedDish { allergen_texts: a, order_marks: o, name_texts: n }),
        _ => None,
    }
}

fn scrape_day(h: &str) -> (r: Option<ScrapedDay>)
    ensures
        r matches Some(d) ==> day_texts(h@) == Some(day_texts_view(d)),
        r is None ==> day_texts(h@) is None,
{
    let labels = match select_in_fragment(h, "h2 > label") {
        Some(l) => l,
        None => {
            return None;
        },
    };
    let n = match count_in_fragment(h, ".InputHolder") {
        Some(n) => n,
        None => {
            return None;
        },
    };
    let mut dishes: Vec<ScrapedDish> = Vec::new();
    let mut i: usize = 0;
    while i < n
        invariant
            i <= n,
            fragment_count(h@, dishes_selector()) == Some(n),
            dishes_texts(h@, i as nat) == Some(Seq::new(dishes@.len(), |k: int| dish_texts_view(dishes@[k]))),
        decreases n - i,
    {
        match scrape_dish(h, i) {
            Some(d) => {
                let ghost before = dishes@;
                dishes.push(d);
                proof {
                    assert(Seq::new(dishes@.len(), |k: int| dish_texts_view(dishes@[k])) =~= Seq::new(
                        before.len(),
                        |k: int| dish_texts_view(before[k]),
                    ).push(dish_texts_view(d)));
                }
            },
            None => {
                proof {
                    lemma_dishes_texts_none(h@, (i + 1) as nat, n as nat);
                }
                return None;
            },
        }
        i = i + 1;
    }
    let day = ScrapedDay { labels, dishes };
    proof {
        assert(day_texts_view(day).1 =~= Seq::new(dishes@.len(), |k: int| dish_texts_view(dishes@[k])));
    }
    Some(day)
}

/// The selector of the days of `year` on the menu page.
fn day_selector_of(year: i32) -> (r: String)
    ensures
        r@ == day_selector(year as int),
{
    let mut r = String::from_str("div[id*='");
    r.append(i32_string(year).as_str());
    r.append("']");
    r
}

fn scrape_days(hs: &Vec<String>) -> (r: Option<Vec<ScrapedDay>>)
    ensures
        r matches Some(days) ==> days_texts(hs.deep_view()) == Some(days_texts_view(days@)),
        r is None ==> days_texts(hs.deep_view()) is None,
{
    let ghost s = hs.deep_view();
    let mut days: Vec<ScrapedDay> = Vec::new();
    let mut i: usize = 0;
    assert(s.take(0) =~= Seq::<Seq<char>>::empty());
    assert(days_texts_view(days@) =~= Seq::<DayTexts>::empty());
    while i < hs.len()
        invariant
            s == hs.deep_view(),
            i <= hs@.len(),
            days_texts(s.take(i as int)) == Some(days_texts_view(days@)),
        decreases hs@.len() - i,
    {
        let h = hs[i].as_str();
        proof {
            assert(h@ == s[i as int]);
            assert(s.take(i + 1).drop_last() =~= s.take(i as int));
            assert(s.take(i + 1).last() == s[i as int]);
        }
        match scrape_day(h) {
            Some(d) => {
                let ghost before = days@;
                days.push(d);
                proof {
                    assert(days_texts_view(days@) =~= days_texts_view(before).push(day_texts_view(d)));
                }
            },
            None => {
                proof {
                    lemma_days_texts_none(s, i + 1);
                }
                return None;
            },
        }
        i = i + 1;
    }
    assert(s.take(hs@.len() as int) =~= s);
    Some(days)
}

/// Reads the menu page: the days of `year` and of the next year, with their
/// labels and dishes; none where scraper refuses a selector.
pub fn scrape_page(page: &str, year: i32) -> (r: Option<Vec<ScrapedDay>>)
    requires
        year < i32::MAX,
    ensures
        r matches Some(days) ==> page_texts(page@, year as int) == Some(days_texts_view(days@)),
        r is None ==> page_texts(page@, year as int) is None,
{
    let this_year = day_selector_of(year);
    let next_year = day_selector_of(year + 1);
    let a = select_in_document(page, this_year.as_str());
    let b = select_in_document(page, next_year.as_str());
    let (a, b) = match (a, b) {
        (Some(a), Some(b)) => (a, b),
        _ => {
            return None;
        },
    };
    let x = scrape_days(&a);
    let y = scrape_days(&b);
    match (x, y) {
        (Some(mut x), Some(mut y)) => {
            let ghost xv = x@;
            let ghost yv = y@;
            x.append(&mut y);
            assert(days_texts_view(x@) =~= days_texts_view(xv) + days_texts_view(yv));
            Some(x)
        },
        _ => None,
    }
}


/// The pieces joined together.
pub open spec fn joined(parts: Seq<Seq<char>>) -> Seq<char>
    decreases parts.len(),
{
    if parts.len() == 0 {
        Seq::empty()
    } else {
        joined(parts.drop_last()) + parts.last()
    }
}

/// The date that a day heading shows: the words after the first space,
/// joined without spaces.
pub open spec fn heading_date_text(label: Seq<char>) -> Seq<char> {
    joined(split(label, ' ').drop_first())
}

/// The pieces of a dish's name, each trimmed and followed by a space, the
/// blank ones left out.
pub open spec fn name_words(texts: Seq<Seq<char>>) -> Seq<char>
    decreases texts.len(),
{
    if texts.len() == 0 {
        Seq::empty()
    } else {
        name_words(texts.drop_last()) + if trim(texts.last()).len() > 0 {
            trim(texts.last()).push(' ')
        } else {
            Seq::empty()
        }
    }
}

/// The name of a dish as the menu page shows it.
pub open spec fn scraped_name(texts: Seq<Seq<char>>) -> Seq<char> {
    trim(name_words(texts))
}

/// The texts that are not empty.
pub open spec fn non_empty(texts: Seq<Seq<char>>) -> Seq<Seq<char>>
    decreases texts.len(),
{
    if texts.len() == 0 {
        Seq::empty()
    } else {
        non_empty(texts.drop_last()) + if texts.last().len() > 0 {
            seq![texts.last()]
        } else {
            Seq::empty()
        }
    }
}

/// The dish named `name` on the day `k` of a menu.
pub open spec fn menu_dish(api: Seq<(DayKey, DayMenu)>, k: DayKey, name: Seq<char>) -> Option<DishView> {
    match key_index(api, k) {
        Some(i) => {
            let ds = dishes_of(api[i].1.dishes);
            match key_index(ds, name) {
                Some(j) => Some(ds[j].1),
                None => None,
            }
        },
        None => None,
    }
}

/// The dishes of a day of the page that the menu `api` knows on day `k`:
/// each with the id from `api`, the allergens and the order state from the page.
pub open spec fn merged_dishes(api: Seq<(DayKey, DayMenu)>, k: DayKey, ds: Seq<DishTexts>) -> Seq<(Seq<char>, DishView)>
    decreases ds.len(),
{
    if ds.len() == 0 {
        Seq::empty()
    } else {
        let prev = merged_dishes(api, k, ds.drop_last());
        let d = ds.last();
        let name = scraped_name(d.2);
        match menu_dish(api, k, name) {
            Some(info) => upsert(prev, name, DishView { id: info.id, allergens: non_empty(d.0), order_state: d.1.len() > 0 }),
            None => prev,
        }
    }
}

/// A day of the page: none where its heading shows no date (the merge
/// fails), `Some(None)` where it has no heading or no known dish (it is
/// skipped), and otherwise its key and what it holds.
pub open spec fn merged_day(api: Seq<(DayKey, DayMenu)>, d: DayTexts) -> Option<Option<(DayKey, DayView)>> {
    if d.0.len() == 0 {
        Some(None)
    } else {
        match date_fields(heading_date_text(d.0[0])) {
            Some(k) => {
                let ds = merged_dishes(api, k, d.1);
                if ds.len() == 0 {
                    Some(None)
                } else {
                    Some(Some((k, DayView { day_of_week: czech_weekday(weekday_from_monday(k.0, k.1, k.2)), dishes: ds })))
                }
            },
            None => None,
        }
    }
}

/// The days of the page merged with the menu `api`, inserted one after the
/// other by date.
pub open spec fn merged_days(api: Seq<(DayKey, DayMenu)>, days: Seq<DayTexts>) -> Option<Seq<(DayKey, DayView)>>
    decreases days.len(),
{
    if days.len() == 0 {
        Some(Seq::empty())
    } else {
        match (merged_days(api, days.drop_last()), merged_day(api, days.last())) {
            (Some(s), Some(None)) => Some(s),
            (Some(s), Some(Some((k, v)))) => Some(upsert(s, k, v)),
            _ => None,
        }
    }
}

/// What the days of a menu hold, by key.
pub open spec fn days_view(s: Seq<(DayKey, DayMenu)>) -> Seq<(DayKey, DayView)> {
    Seq::new(s.len(), |i: int| (s[i].0, day_view(s[i].1)))
}

proof fn lemma_upsert_days_view(s: Seq<(DayKey, DayMenu)>, k: DayKey, d: DayMenu)
    ensures
        days_view(upsert(s, k, d)) == upsert(days_view(s), k, day_view(d)),
{
    let v = days_view(s);
    lemma_key_index(s, k);
    lemma_key_index(v, k);
    match key_index(s, k) {
        Some(i) => {
            match key_index(v, k) {
                Some(j) => {
                    if j < i {
                        assert(s[j].0 == v[j].0);
                    } else if j > i {
                        assert(v[i].0 == s[i].0);
                    }
                },
                None => {
                    assert(v[i].0 == s[i].0);
                },
            }
            assert(days_view(upsert(s, k, d)) =~= upsert(v, k, day_view(d)));
        },
        None => {
            match key_index(v, k) {
                Some(j) => {
                    assert(s[j].0 == v[j].0);
                },
                None => {},
            }
            assert(days_view(upsert(s, k, d)) =~= upsert(v, k, day_view(d)));
        },
    }
}

proof fn lemma_merged_days_none(api: Seq<(DayKey, DayMenu)>, days: Seq<DayTexts>, k: int)
    requires
        0 <= k <= days.len(),
        merged_days(api, days.take(k)) is None,
    ensures
        merged_days(api, days) is None,
    decreases days.len() - k,
{
    if k < days.len() {
        assert(days.take(k + 1).drop_last() =~= days.take(k));
        lemma_merged_days_none(api, days, k + 1);
    } else {
        assert(days.take(k) =~= days);
    }
}

/// The date that a day heading shows.
pub fn heading_date(label: &str) -> (r: String)
    ensures
        r@ == heading_date_text(label@),
{
    let v = chars_of(label);
    let parts = split_ranges(&v, ' ');
    let ghost ps = pieces(v@, parts@);
    let ghost rest = ps.drop_first();
    let mut r = String::new();
    let mut i: usize = 1;
    assert(rest.take(0) =~= Seq::<Seq<char>>::empty());
    while i < parts.len()
        invariant
            ps == pieces(v@, parts@),
            rest == ps.drop_first(),
            forall|k: int| 0 <= k < parts@.len() ==> #[trigger] parts@[k].0 <= parts@[k].1 <= v@.len(),
            1 <= i <= parts@.len(),
            r@ == joined(rest.take(i - 1)),
        decreases parts@.len() - i,
    {
        let (a, b) = parts[i];
        let piece = string_of(&v, a, b);
        r.append(piece.as_str());
        proof {
            assert(rest.take(i as int).drop_last() =~= rest.take(i - 1));
            assert(rest.take(i as int).last() == ps[i as int]);
        }
        i = i + 1;
    }
    assert(rest.take(parts@.len() - 1) =~= rest);
    r
}

/// The name of a dish as the menu page shows it.
pub fn scraped_dish_name(texts: &Vec<String>) -> (r: String)
    ensures
        r@ == scraped_name(texts.deep_view()),
{
    let ghost t = texts.deep_view();
    let mut words = String::new();
    let mut i: usize = 0;
    assert(t.take(0) =~= Seq::<Seq<char>>::empty());
    while i < texts.len()
        invariant
            t == texts.deep_view(),
            i <= texts@.len(),
            words@ == name_words(t.take(i as int)),
        decreases texts@.len() - i,
    {
        let w = trim_str(texts[i].as_str());
        let ghost before = words@;
        if w.unicode_len() > 0 {
            words.append(w.as_str());
            push_char(&mut words, ' ');
        }
        proof {
            assert(t.take(i + 1).drop_last() =~= t.take(i as int));
            assert(t.take(i + 1).last() == t[i as int]);
            assert(t[i as int] == texts@[i as int]@);
            if w@.len() > 0 {
                assert(words@ =~= before + trim(t[i as int]).push(' '));
            } else {
                assert(words@ =~= before + Seq::<char>::empty());
            }
        }
        i = i + 1;
    }
    assert(t.take(texts@.len() as int) =~= t);
    trim_str(words.as_str())
}

/// The texts that are not empty.
pub fn non_empty_texts(texts: &Vec<String>) -> (r: Vec<String>)
    ensures
        r.deep_view() == non_empty(texts.deep_view()),
{
    let ghost t = texts.deep_view();
    let mut r: Vec<String> = Vec::new();
    let mut i: usize = 0;
    assert(t.take(0) =~= Seq::<Seq<char>>::empty());
    assert(r.deep_view() =~= Seq::<Seq<char>>::empty());
    while i < texts.len()
        invariant
            t == texts.deep_view(),
            i <= texts@.len(),
            r.deep_view() == non_empty(t.take(i as int)),
        decreases texts@.len() - i,
    {
        let ghost before = r.deep_view();
        if texts[i].unicode_len() > 0 {
            r.push(texts[i].clone());
        }
        proof {
            assert(t.take(i + 1).drop_last() =~= t.take(i as int));
            assert(t.take(i + 1).last() == t[i as int]);
            assert(t[i as int] == texts@[i as int]@);
            if t[i as int].len() > 0 {
                assert(r.deep_view() =~= before + seq![t[i as int]]);
            } else {
                assert(r.deep_view() =~= before + Seq::<Seq<char>>::empty());
            }
        }
        i = i + 1;
    }
    assert(t.take(texts@.len() as int) =~= t);
    r
}

fn merge_day(api: &Menu, day: &ScrapedDay) -> (r: Option<Option<(DayKey, DayMenu)>>)
    ensures
        merged_day(days_of(*api), day_texts_view(*day)) == match r {
            Some(Some((k, d))) => Some(Some((k, day_view(d)))),
            Some(None) => Some(None),
            None => None,
        },
        r matches Some(Some((k, d))) ==> d.date.key() == k,
{
    let ghost dv = day_texts_view(*day);
    if day.labels.len() == 0 {
        return Some(None);
    }
    let text = heading_date(day.labels[0].as_str());
    proof {
        assert(dv.0[0] == day.labels@[0]@);
    }
    let date = match Date::parse(text.as_str()) {
        Some(d) => d,
        None => {
            return None;
        },
    };
    let key = (date.year, date.month, date.day);
    let ghost api_days = days_of(*api);
    let ghost ds = dv.1;
    let mut daily = new_dishes();
    let mut i: usize = 0;
    assert(ds.take(0) =~= Seq::<DishTexts>::empty());
    while i < day.dishes.len()
        invariant
            ds == day_texts_view(*day).1,
            api_days == days_of(*api),
            i <= day.dishes@.len(),
            dishes_of(daily) == merged_dishes(api_days, key, ds.take(i as int)),
        decreases day.dishes@.len() - i,
    {
        let dish = &day.dishes[i];
        let name = scraped_dish_name(&dish.name_texts);
        let ghost prev = dishes_of(daily);
        proof {
            assert(ds.take(i + 1).drop_last() =~= ds.take(i as int));
            assert(ds.take(i + 1).last() == ds[i as int]);
            assert(ds[i as int] == dish_texts_view(*dish));
        }
        match day_get(api, &key) {
            Some(api_day) => {
                match dish_get(&api_day.dishes, name.as_str()) {
                    Some(info) => {
                        let allergens = non_empty_texts(&dish.allergen_texts);
                        let entry = DishInfo { id: info.id.clone(), allergens, order_state: dish.order_marks.len() > 0 };
                        insert_dish(&mut daily, name, entry);
                    },
                    None => {},
                }
            },
            None => {},
        }
        i = i + 1;
    }
    assert(ds.take(day.dishes@.len() as int) =~= ds);
    if dishes_len(&daily) == 0 {
        return Some(None);
    }
    Some(Some((key, DayMenu { date, dishes: daily })))
}

/// Merges the days that the menu page shows with the menu `api` that the
/// ordering service sends: each dish of the page that `api` knows on the same
/// day, with the id from `api` and the allergens and order state from the
/// page; days without dishes left out; none where a heading shows no date.
pub fn merge_scraped(api: &Menu, days: &Vec<ScrapedDay>) -> (r: Option<Menu>)
    ensures
        r is Some <==> merged_days(days_of(*api), days_texts_view(days@)) is Some,
        r matches Some(m) ==> days_view(days_of(m)) == merged_days(days_of(*api), days_texts_view(days@)).unwrap()
            && crate::menu::dates_at_keys(days_of(m)),
{
    let ghost api_days = days_of(*api);
    let ghost dv = days_texts_view(days@);
    let mut menu = new_menu();
    let mut i: usize = 0;
    assert(dv.take(0) =~= Seq::<DayTexts>::empty());
    assert(days_view(days_of(menu)) =~= Seq::<(DayKey, DayView)>::empty());
    while i < days.len()
        invariant
            api_days == days_of(*api),
            dv == days_texts_view(days@),
            i <= days@.len(),
            merged_days(api_days, dv.take(i as int)) == Some(days_view(days_of(menu))),
            crate::menu::dates_at_keys(days_of(menu)),
        decreases days@.len() - i,
    {
        proof {
            assert(dv.take(i + 1).drop_last() =~= dv.take(i as int));
            assert(dv.take(i + 1).last() == dv[i as int]);
        }
        match merge_day(api, &days[i]) {
            Some(Some((key, day))) => {
                let ghost old_days = days_of(menu);
                proof {
                    lemma_upsert_days_view(old_days, key, day);
                    lemma_key_index(old_days, key);
                }
                insert_day(&mut menu, key, day);
                proof {
                    let nd = days_of(menu);
                    assert forall|j: int| 0 <= j < nd.len() implies (#[trigger] nd[j]).1.date.key() == nd[j].0 by {
                        match key_index(old_days, key) {
                            Some(idx) => {
                                if j != idx {
                                    assert(nd[j] == old_days[j]);
                                }
                            },
                            None => {
                                if j < old_days.len() {
                                    assert(nd[j] == old_days[j]);
                                }
                            },
                        }
                    }
                }
            },
            Some(None) => {},
            None => {
                proof {
                    lemma_merged_days_none(api_days, dv, i + 1);
                }
                return None;
            },
        }
        i = i + 1;
    }
    assert(dv.take(days@.len() as int) =~= dv);
    Some(menu)
}

/// The user's menu as the menu page shows it, merged with the menu that the
/// ordering service sends; none where scraper refuses a selector or a day
/// heading shows no date.
pub fn scraper_user_menu(api_data: &Menu, page: &str, year: i32) -> (r: Option<Menu>)
    requires
        year < i32::MAX,
    ensures
        r is Some <==> (page_texts(page@, year as int) matches Some(days) && merged_days(days_of(*api_data), days) is Some),
        r matches Some(m) ==> days_view(days_of(m)) == merged_days(days_of(*api_data), page_texts(page@, year as int).unwrap()).unwrap(),
        r matches Some(m) ==> crate::menu::dates_at_keys(days_of(m)),
{
    match scrape_page(page, year) {
        Some(days) => merge_scraped(api_data, &days),
        None => None,
    }
}

} // verus!
