use vstd::prelude::*;
use crate::menu::{DayView, DishView};
use crate::settings::{DishDBEntry, DishTest, OrdersCancelingSettings, Strategy, blacklist_name, day_orders, first, is_first, is_listed, lemma_first_found, menu_orders, ordered_ids, passes, plan_of, shares_allergen};
use crate::text::{is_ws, trim, trim_end, trim_start};
use crate::requests::{hex_digit, is_url_safe, percent_encode};
use crate::json::{escape_char, escaped};
use crate::cantine::{CantineData, cantine_of, cantines_of, drop_digits, history_allergen, history_allergens, history_days, history_dish, history_dishes, history_menu};
use crate::date::{Date, czech_weekday, date_fields, date_text, valid_ymd, weekday_from_monday, year_text, zero_padded};
use crate::entries::lemma_upsert_entries;
use crate::menu::{DayKey, DayMenu, days_match, key_lt, member_day, member_key, menu_days, menu_ok, strictly_sorted};
use crate::entries::{as_map, has_key, key_index, lemma_key_index, lemma_unique_key_index, unique_keys, upsert};
use crate::scrape::{DayTexts, DishTexts, days_view, menu_dish, merged_day, merged_days, merged_dishes, non_empty, scraped_name, heading_date_text, joined, name_words};
use crate::text::{all_digits, decimal, digit_char, digits_value, first_index, is_digit, parse_u32, split};
use crate::json::Json;

verus! {

/// Day `d` of `days` lists a dish with id `id`, an ordered one where
/// `must_be_ordered` holds.
pub open spec fn lists_dish(days: Seq<Seq<(Seq<char>, DishView)>>, id: Seq<char>, must_be_ordered: bool) -> bool {
    exists|d: int, j: int|
        0 <= d < days.len() && 0 <= j < days[d].len() && (#[trigger] days[d][j]).1.id == id && (
        must_be_ordered ==> days[d][j].1.order_state)
}

pub open spec fn day_lists(day: Seq<(Seq<char>, DishView)>, id: Seq<char>, must_be_ordered: bool) -> bool {
    exists|j: int| 0 <= j < day.len() && (#[trigger] day[j]).1.id == id && (must_be_ordered ==> day[j].1.order_state)
}

proof fn lemma_first_is_first(t: DishTest, s: OrdersCancelingSettings, d: Seq<(Seq<char>, DishView)>)
    ensures
        first(t, s, d) matches Some(j) ==> is_first(t, s, d, j),
{
}

proof fn lemma_ordered_ids(d: Seq<(Seq<char>, DishView)>)
    ensures
        forall|i: int| #![trigger ordered_ids(d)[i]] 0 <= i < ordered_ids(d).len() ==> ordered_ids(d)[i].1 == 0u8 && day_lists(d, ordered_ids(d)[i].0, true),
    decreases d.len(),
{
    if d.len() > 0 {
        let p = d.drop_last();
        lemma_ordered_ids(p);
        let o = ordered_ids(d);
        let tail = if d.last().1.order_state {
            seq![(d.last().1.id, 0u8)]
        } else {
            Seq::empty()
        };
        assert(o == ordered_ids(p) + tail);
        assert forall|i: int| #![trigger o[i]] 0 <= i < o.len() implies o[i].1 == 0u8 && day_lists(d, o[i].0, true) by {
            if i < ordered_ids(p).len() {
                assert(o[i] == ordered_ids(p)[i]);
                assert(ordered_ids(p)[i].1 == 0u8 && day_lists(p, ordered_ids(p)[i].0, true));
                let j = choose|j: int| 0 <= j < p.len() && (#[trigger] p[j]).1.id == o[i].0 && p[j].1.order_state;
                assert(d[j] == p[j]);
            } else {
                assert(d[d.len() - 1] == d.last());
            }
        }
    }
}

/// Every order that a strategy sends for a day names a dish of that day, and
/// every cancellation (0 portions) an ordered one.
pub proof fn law_day_orders_name_dishes(st: Strategy, s: OrdersCancelingSettings, d: Seq<(Seq<char>, DishView)>)
    ensures
        forall|i: int| 0 <= i < day_orders(st, s, d).len() ==> day_lists(d, #[trigger] day_orders(st, s, d)[i].0, day_orders(st, s, d)[i].1 == 0u8),
{
    lemma_first_is_first(DishTest::Cancel, s, d);
    lemma_first_is_first(DishTest::Preferred, s, d);
    lemma_first_is_first(DishTest::Candidate, s, d);
    lemma_ordered_ids(d);
    let o = day_orders(st, s, d);
    assert forall|i: int| 0 <= i < o.len() implies day_lists(d, #[trigger] o[i].0, o[i].1 == 0u8) by {
        match st {
            Strategy::CancelAll => {},
            _ => {
                let j = first(DishTest::Cancel, s, d).unwrap();
                if i == 0 {
                    assert(d[j].1.id == o[i].0);
                } else {
                    match first(DishTest::Preferred, s, d) {
                        Some(p) => {
                            assert(d[p].1.id == o[i].0);
                        },
                        None => {
                            let c = first(DishTest::Candidate, s, d).unwrap();
                            assert(d[c].1.id == o[i].0);
                        },
                    }
                }
            },
        }
    }
}

/// Every order that the automatic canceling sends names a dish of the menu,
/// and every cancellation (0 portions) a dish that is ordered.
pub proof fn law_orders_name_menu_dishes(st: Strategy, s: OrdersCancelingSettings, days: Seq<Seq<(Seq<char>, DishView)>>)
    ensures
        forall|i: int| 0 <= i < menu_orders(st, s, days).len() ==> lists_dish(days, #[trigger] menu_orders(st, s, days)[i].0, menu_orders(st, s, days)[i].1 == 0u8),
    decreases days.len(),
{
    if days.len() > 0 {
        let p = days.drop_last();
        law_orders_name_menu_dishes(st, s, p);
        law_day_orders_name_dishes(st, s, days.last());
        let o = menu_orders(st, s, days);
        let po = menu_orders(st, s, p);
        let lo = day_orders(st, s, days.last());
        assert(o == po + lo);
        assert forall|i: int| 0 <= i < o.len() implies lists_dish(days, #[trigger] o[i].0, o[i].1 == 0u8) by {
            if i < po.len() {
                assert(o[i] == po[i]);
                let (d, j) = choose|d: int, j: int| 0 <= d < p.len() && 0 <= j < p[d].len() && (#[trigger] p[d][j]).1.id == po[i].0 && (po[i].1 == 0u8 ==> p[d][j].1.order_state);
                assert(days[d] == p[d]);
                assert(days[d][j] == p[d][j]);
            } else {
                let k = i - po.len();
                assert(o[i] == lo[k]);
                let j = choose|j: int| 0 <= j < days.last().len() && (#[trigger] days.last()[j]).1.id == lo[k].0 && (lo[k].1 == 0u8 ==> days.last()[j].1.order_state);
                let d = days.len() - 1;
                assert(days[d] == days.last());
                assert(days[d][j] == days.last()[j]);
            }
        }
    }
}

/// The strategy `cancel` cancels at most one dish a day, and `replace` sends
/// at most two orders a day: a cancellation and a replacement.
pub proof fn law_orders_per_day(s: OrdersCancelingSettings, days: Seq<Seq<(Seq<char>, DishView)>>)
    ensures
        menu_orders(Strategy::Cancel, s, days).len() <= days.len(),
        menu_orders(Strategy::Replace, s, days).len() <= 2 * days.len(),
    decreases days.len(),
{
    if days.len() > 0 {
        law_orders_per_day(s, days.drop_last());
    }
}

/// In a day's orders of the strategy `replace`, a replacement (one portion)
/// comes only after a cancellation (no portion) of the same day.
pub proof fn law_replacement_follows_cancellation(s: OrdersCancelingSettings, d: Seq<(Seq<char>, DishView)>)
    ensures
        day_orders(Strategy::Replace, s, d).len() > 0 ==> day_orders(Strategy::Replace, s, d)[0].1 == 0u8,
        forall|i: int| 0 < i < day_orders(Strategy::Replace, s, d).len() ==> #[trigger] day_orders(Strategy::Replace, s, d)[i].1 == 1u8,
{
}


/// Whatever the strategy, the orders that the automatic canceling plans name
/// dishes of the menu, and its cancellations (0 portions) dishes that are
/// ordered; `disabled` plans nothing.
pub proof fn law_plan_names_menu_dishes(s: OrdersCancelingSettings, days: Seq<Seq<(Seq<char>, DishView)>>)
    ensures
        plan_of(s, days) matches Ok(Some(orders)) ==> forall|i: int| 0 <= i < orders.len() ==> lists_dish(days, #[trigger] orders[i].0, orders[i].1 == 0u8),
        s.strategy@ == "disabled"@ ==> plan_of(s, days) == Ok::<Option<Seq<(Seq<char>, u8)>>, Seq<char>>(None),
{
    law_orders_name_menu_dishes(Strategy::Cancel, s, days);
    law_orders_name_menu_dishes(Strategy::Replace, s, days);
    law_orders_name_menu_dishes(Strategy::CancelAll, s, days);
    reveal_strlit("disabled");
    reveal_strlit("cancel");
    reveal_strlit("replace");
    reveal_strlit("cancelAll");
    assert("disabled"@[0] == 'd');
    assert("cancel"@[0] == 'c' && "cancel"@.len() == 6);
    assert("cancelAll"@.len() == 9);
    assert("replace"@[0] == 'r');
}

proof fn lemma_digit_char(k: nat)
    requires
        k < 10,
    ensures
        is_digit(digit_char(k)),
        crate::text::digit_value(digit_char(k)) == k,
{
}

proof fn lemma_decimal(n: nat)
    ensures
        decimal(n).len() > 0,
        all_digits(decimal(n)),
        digits_value(decimal(n)) == n,
    decreases n,
{
    lemma_digit_char(n % 10);
    if n < 10 {
        assert(n % 10 == n);
        assert(decimal(n).drop_last() =~= Seq::<char>::empty());
        assert(digits_value(decimal(n)) == digits_value(Seq::<char>::empty()) * 10 + crate::text::digit_value(digit_char(n)));
    } else {
        lemma_decimal(n / 10);
        assert(n == (n / 10) * 10 + n % 10);
        let s = decimal(n);
        assert(s.drop_last() == decimal(n / 10));
        assert(s.last() == digit_char(n % 10));
        assert(digits_value(s) == digits_value(decimal(n / 10)) * 10 + crate::text::digit_value(digit_char(n % 10)));
        assert forall|i: int| 0 <= i < s.len() implies is_digit(#[trigger] s[i]) by {
            if i < s.len() - 1 {
                assert(s[i] == decimal(n / 10)[i]);
            }
        }
    }
}

proof fn lemma_zeros(n: nat)
    ensures
        all_digits(Seq::new(n, |i: int| '0')),
        digits_value(Seq::new(n, |i: int| '0')) == 0,
    decreases n,
{
    if n > 0 {
        lemma_zeros((n - 1) as nat);
        assert(Seq::new(n, |i: int| '0').drop_last() =~= Seq::new((n - 1) as nat, |i: int| '0'));
    }
}

proof fn lemma_zero_prefix(p: Seq<char>, s: Seq<char>)
    requires
        digits_value(p) == 0,
    ensures
        digits_value(p + s) == digits_value(s),
    decreases s.len(),
{
    if s.len() == 0 {
        assert(p + s =~= p);
    } else {
        lemma_zero_prefix(p, s.drop_last());
        assert((p + s).drop_last() =~= p + s.drop_last());
        assert((p + s).last() == s.last());
    }
}

/// A zero-padded decimal: digits only, none of them a dot or a sign, and the
/// number it writes.
proof fn lemma_padded(n: nat, w: nat)
    ensures
        zero_padded(decimal(n), w).len() > 0,
        all_digits(zero_padded(decimal(n), w)),
        digits_value(zero_padded(decimal(n), w)) == n,
{
    lemma_decimal(n);
    let s = decimal(n);
    if s.len() < w {
        let z = Seq::new((w - s.len()) as nat, |i: int| '0');
        lemma_zeros((w - s.len()) as nat);
        lemma_zero_prefix(z, s);
        assert forall|i: int| 0 <= i < (z + s).len() implies is_digit(#[trigger] (z + s)[i]) by {
            if i >= z.len() {
                assert((z + s)[i] == s[i - z.len()]);
            }
        }
    }
}

proof fn lemma_no_sep(s: Seq<char>, c: char)
    requires
        forall|i: int| 0 <= i < s.len() ==> #[trigger] s[i] != c,
    ensures
        first_index(s, c) is None,
        split(s, c) == seq![s],
    decreases s.len(),
{
    if s.len() > 0 {
        lemma_no_sep(s.drop_first(), c);
    }
}

proof fn lemma_sep_after(a: Seq<char>, c: char, rest: Seq<char>)
    requires
        forall|i: int| 0 <= i < a.len() ==> #[trigger] a[i] != c,
    ensures
        first_index(a + seq![c] + rest, c) == Some(a.len() as int),
        split(a + seq![c] + rest, c) == seq![a] + split(rest, c),
    decreases a.len(),
{
    let t = a + seq![c] + rest;
    if a.len() > 0 {
        lemma_sep_after(a.drop_first(), c, rest);
        assert(t.drop_first() =~= a.drop_first() + seq![c] + rest);
    } else {
        assert(t[0] == c);
    }
    assert(t.take(a.len() as int) =~= a);
    assert(t.skip(a.len() as int + 1) =~= rest);
}

/// The year as `date_text` writes it for a year from 0 on: read back by
/// `str::parse::<u32>`, and free of dots.
proof fn lemma_year_text(y: int)
    requires
        0 <= y <= 262142,
    ensures
        parse_u32(year_text(y)) == Some(y as u32),
        forall|i: int| 0 <= i < year_text(y).len() ==> #[trigger] year_text(y)[i] != '.',
{
    lemma_padded(y as nat, 4);
    let p = zero_padded(decimal(y as nat), 4);
    assert(p[0] != '+') by {
        assert(is_digit(p[0]));
    }
    assert forall|i: int| 0 <= i < p.len() implies #[trigger] p[i] != '.' by {
        assert(is_digit(p[i]));
    }
    if y >= 10000 {
        let t = seq!['+'] + p;
        assert(t.drop_first() =~= p);
        assert forall|i: int| 0 <= i < t.len() implies #[trigger] t[i] != '.' by {
            if i > 0 {
                assert(t[i] == p[i - 1]);
            }
        }
    }
}

/// Reading back the date that `to_text` writes (its part before the space)
/// gives the same date, with the same name of its weekday, for every date
/// `Date::parse` reads whose year is not negative.
pub proof fn law_date_text_reads_back(d: Date, s: Seq<char>)
    requires
        d.describes(s),
        d.year >= 0,
    ensures
        date_fields(date_text(d.year as int, d.month as nat, d.day as nat)) == Some(d.key()),
        d.describes(date_text(d.year as int, d.month as nat, d.day as nat)),
        forall|e: Date| #[trigger] e.describes(date_text(d.year as int, d.month as nat, d.day as nat))
            ==> e.key() == d.key() && e.day_of_week@ == d.day_of_week@,
{
    assert(valid_ymd(d.year as int, d.month as int, d.day as int));
    let a = zero_padded(decimal(d.day as nat), 2);
    let b = zero_padded(decimal(d.month as nat), 2);
    let c = year_text(d.year as int);
    lemma_padded(d.day as nat, 2);
    lemma_padded(d.month as nat, 2);
    lemma_year_text(d.year as int);
    assert forall|i: int| 0 <= i < a.len() implies #[trigger] a[i] != '.' by {
        assert(is_digit(a[i]));
    }
    assert forall|i: int| 0 <= i < b.len() implies #[trigger] b[i] != '.' by {
        assert(is_digit(b[i]));
    }
    reveal_strlit(".");
    let t = date_text(d.year as int, d.month as nat, d.day as nat);
    assert(t =~= a + seq!['.'] + (b + seq!['.'] + c));
    lemma_sep_after(a, '.', b + seq!['.'] + c);
    lemma_sep_after(b, '.', c);
    lemma_no_sep(c, '.');
    let parts = split(t, '.');
    assert(parts =~= seq![a, b, c]);
    assert(a[0] != '+') by {
        assert(is_digit(a[0]));
    }
    assert(b[0] != '+') by {
        assert(is_digit(b[0]));
    }
    assert(parse_u32(parts[0]) == Some(d.day));
    assert(parse_u32(parts[1]) == Some(d.month));
    assert(parse_u32(parts[2]) == Some(d.year as u32));
    assert((d.year as u32) as i32 == d.year);
    assert forall|i: int| 0 <= i < parts.len() implies (#[trigger] parse_u32(parts[i])) is Some by {
        if i == 0 {
        } else if i == 1 {
        } else {
        }
    }
}

proof fn lemma_first_exists(t: DishTest, s: OrdersCancelingSettings, d: Seq<(Seq<char>, DishView)>, j: int)
    requires
        0 <= j < d.len(),
        passes(t, s, d[j]),
    ensures
        first(t, s, d) is Some,
    decreases j,
{
    if exists|k: int| 0 <= k < j && passes(t, s, #[trigger] d[k]) {
        let k = choose|k: int| 0 <= k < j && passes(t, s, #[trigger] d[k]);
        lemma_first_exists(t, s, d, k);
    } else {
        lemma_first_found(t, s, d, j);
    }
}

/// The entries of a list of dishes, as plain values.
pub open spec fn entry_views(list: Seq<DishDBEntry>) -> Seq<(Seq<char>, Seq<Seq<char>>)> {
    list.map_values(|e: DishDBEntry| e@)
}

/// A dish is listed exactly when some entry of the list, at any position,
/// has its name and its allergens.
pub proof fn law_listed_anywhere(list: Seq<DishDBEntry>, name: Seq<char>, allergens: Seq<Seq<char>>)
    ensures
        is_listed(list, name, allergens) <==> entry_views(list).contains((name, allergens)),
        forall|i: int| 0 <= i < list.len() ==> is_listed(list, (#[trigger] list[i])@.0, list[i]@.1),
{
    let v = entry_views(list);
    if is_listed(list, name, allergens) {
        let i = choose|i: int| 0 <= i < list.len() && (#[trigger] list[i])@ == (name, allergens);
        assert(v[i] == (name, allergens));
    }
    if v.contains((name, allergens)) {
        let i = choose|i: int| 0 <= i < v.len() && v[i] == (name, allergens);
        assert(list[i]@ == (name, allergens));
    }
    assert forall|i: int| 0 <= i < list.len() implies is_listed(list, (#[trigger] list[i])@.0, list[i]@.1) by {
        assert(list[i]@ == (list[i]@.0, list[i]@.1));
    }
}

/// Two lists of allergens share one exactly when some allergen occurs in both.
pub proof fn law_shared_allergen(a: Seq<Seq<char>>, b: Seq<Seq<char>>)
    ensures
        shares_allergen(a, b) <==> exists|x: Seq<char>| a.contains(x) && b.contains(x),
{
    if shares_allergen(a, b) {
        let (i, j) = choose|i: int, j: int| 0 <= i < a.len() && 0 <= j < b.len() && #[trigger] a[i] == #[trigger] b[j];
        assert(a.contains(a[i]) && b.contains(a[i]));
    }
    if exists|x: Seq<char>| a.contains(x) && b.contains(x) {
        let x = choose|x: Seq<char>| a.contains(x) && b.contains(x);
        let i = choose|i: int| 0 <= i < a.len() && a[i] == x;
        let j = choose|j: int| 0 <= j < b.len() && b[j] == x;
        assert(a[i] == b[j]);
    }
}

/// The blacklist knows a dish listed as `p - q` (neither part holding a `-`)
/// by `q` trimmed, also when more parts follow; a name without `-` has no
/// blacklist name.
pub proof fn law_blacklist_name(p: Seq<char>, q: Seq<char>, r: Seq<char>)
    requires
        forall|i: int| 0 <= i < p.len() ==> #[trigger] p[i] != '-',
        forall|i: int| 0 <= i < q.len() ==> #[trigger] q[i] != '-',
    ensures
        blacklist_name(p + seq!['-'] + q) == Some(trim(q)),
        blacklist_name(p + seq!['-'] + q + seq!['-'] + r) == Some(trim(q)),
        blacklist_name(p) is None,
{
    lemma_no_sep(p, '-');
    lemma_no_sep(q, '-');
    lemma_sep_after(p, '-', q);
    assert(split(p + seq!['-'] + q, '-') =~= seq![p, q]);
    let long = p + seq!['-'] + q + seq!['-'] + r;
    assert(long =~= p + seq!['-'] + (q + seq!['-'] + r));
    lemma_sep_after(p, '-', q + seq!['-'] + r);
    lemma_sep_after(q, '-', r);
    assert(split(long, '-')[1] == q);
}

/// With the strategy `cancel`, a day gets a cancellation exactly when one of
/// its ordered dishes has a blacklist name that the blacklist holds with the
/// dish's allergens, or has an allergen that is blacklisted; it then gets
/// exactly one, of such a dish.
pub proof fn law_cancel_catches_blacklisted(s: OrdersCancelingSettings, d: Seq<(Seq<char>, DishView)>)
    ensures
        day_orders(Strategy::Cancel, s, d).len() <= 1,
        day_orders(Strategy::Cancel, s, d).len() == 1 <==> exists|j: int| 0 <= j < d.len() && #[trigger] caught(s, d[j]),
        day_orders(Strategy::Cancel, s, d).len() == 1 ==> exists|j: int| 0 <= j < d.len() && #[trigger] caught(s, d[j])
            && (forall|k: int| 0 <= k < j ==> !caught(s, #[trigger] d[k]))
            && day_orders(Strategy::Cancel, s, d)[0] == (d[j].1.id, 0u8),
{
    let o = day_orders(Strategy::Cancel, s, d);
    lemma_first_is_first(DishTest::Cancel, s, d);
    if let Some(j) = first(DishTest::Cancel, s, d) {
        lemma_caught(s, d[j]);
        assert(caught(s, d[j]));
        assert(o[0] == (d[j].1.id, 0u8));
        assert forall|k: int| 0 <= k < j implies !caught(s, #[trigger] d[k]) by {
            lemma_caught(s, d[k]);
        }
    } else {
        if exists|j: int| 0 <= j < d.len() && #[trigger] caught(s, d[j]) {
            let j = choose|j: int| 0 <= j < d.len() && #[trigger] caught(s, d[j]);
            lemma_caught(s, d[j]);
            lemma_first_exists(DishTest::Cancel, s, d, j);
        }
    }
}

/// An ordered dish that the strategy `cancel` cancels: its blacklist name is
/// on the blacklist with its allergens, or one of its allergens is
/// blacklisted.
pub open spec fn caught(s: OrdersCancelingSettings, e: (Seq<char>, DishView)) -> bool {
    &&& e.1.order_state
    &&& blacklist_name(e.0) is Some
    &&& (entry_views(s.blacklisted_dishes@).contains((blacklist_name(e.0).unwrap(), e.1.allergens))
        || exists|x: Seq<char>| e.1.allergens.contains(x) && s.blacklisted_allergens.deep_view().contains(x))
}

proof fn lemma_caught(s: OrdersCancelingSettings, e: (Seq<char>, DishView))
    ensures
        caught(s, e) <==> passes(DishTest::Cancel, s, e),
{
    if blacklist_name(e.0) is Some {
        law_listed_anywhere(s.blacklisted_dishes@, blacklist_name(e.0).unwrap(), e.1.allergens);
    }
    law_shared_allergen(e.1.allergens, s.blacklisted_allergens.deep_view());
}

/// An item of `alergeny` that names an allergen: a list whose first item is a
/// string.
pub open spec fn names_allergen(x: Json) -> bool {
    &&& x.array_of() is Some
    &&& x.array_of().unwrap().len() > 0
    &&& x.array_of().unwrap()[0].str_of() is Some
}

/// A dish of a canteen's menu with a list `alergeny` and a string `nazev`
/// that is not blank.
pub open spec fn named_dish(d: Json) -> bool {
    &&& d.field("alergeny"@) is Some
    &&& d.field("alergeny"@).unwrap().array_of() is Some
    &&& d.field("nazev"@) is Some
    &&& d.field("nazev"@).unwrap().str_of() is Some
    &&& trim(d.field("nazev"@).unwrap().str_of().unwrap()).len() > 0
}

/// Each allergen item counts on its own, in order: a list whose first item is
/// a string gives that string without digits, trimmed; any other item gives
/// nothing.
pub proof fn law_history_allergens_item_by_item(a: Seq<Json>, b: Seq<Json>, x: Json)
    ensures
        history_allergens(a + b) == history_allergens(a) + history_allergens(b),
        names_allergen(x) ==> history_allergens(seq![x])
            == seq![trim(drop_digits(x.array_of().unwrap()[0].str_of().unwrap()))],
        !names_allergen(x) ==> history_allergens(seq![x]).len() == 0,
    decreases b.len(),
{
    if b.len() == 0 {
        assert(a + b =~= a);
    } else {
        law_history_allergens_item_by_item(a, b.drop_last(), x);
        assert((a + b).drop_last() =~= a + b.drop_last());
        assert((a + b).last() == b.last());
    }
    let sx = seq![x];
    assert(sx.drop_last() =~= Seq::<Json>::empty());
    assert(sx.last() == x);
    assert(history_allergens(sx) == history_allergens(sx.drop_last()) + match history_allergen(x) {
        Some(v) => seq![v],
        None => Seq::<Seq<char>>::empty(),
    });
    if names_allergen(x) {
        assert(history_allergens(sx) =~= seq![trim(drop_digits(x.array_of().unwrap()[0].str_of().unwrap()))]);
    }
}

/// A dish of a canteen's menu gives an entry exactly when it has a list
/// `alergeny` (empty or not) and a string `nazev` that is not blank; the entry
/// is the name trimmed, with the allergens of that list.
pub proof fn law_history_dish(d: Json)
    ensures
        history_dish(d) is Some <==> named_dish(d),
        history_dish(d) matches Some(e) ==> e == (
            trim(d.field("nazev"@).unwrap().str_of().unwrap()),
            history_allergens(d.field("alergeny"@).unwrap().array_of().unwrap()),
        ),
{
}

/// Each dish of a day counts on its own, in order.
pub proof fn law_history_dishes_dish_by_dish(a: Seq<Json>, b: Seq<Json>, x: Json)
    ensures
        history_dishes(a + b) == history_dishes(a) + history_dishes(b),
        history_dish(x) matches Some(e) ==> history_dishes(seq![x]) == seq![e],
        history_dish(x) is None ==> history_dishes(seq![x]).len() == 0,
    decreases b.len(),
{
    if b.len() == 0 {
        assert(a + b =~= a);
    } else {
        law_history_dishes_dish_by_dish(a, b.drop_last(), x);
        assert((a + b).drop_last() =~= a + b.drop_last());
        assert((a + b).last() == b.last());
    }
    let sx = seq![x];
    assert(sx.drop_last() =~= Seq::<Json>::empty());
    assert(sx.last() == x);
    assert(history_dishes(sx) == history_dishes(sx.drop_last()) + match history_dish(x) {
        Some(v) => seq![v],
        None => Seq::<(Seq<char>, Seq<Seq<char>>)>::empty(),
    });
    if let Some(e) = history_dish(x) {
        assert(history_dishes(sx) =~= seq![e]);
    }
}

/// Each day of a canteen's menu counts on its own, in order: a list of dishes
/// gives its dishes, anything else nothing.
pub proof fn law_history_days_day_by_day(a: Seq<(String, Json)>, b: Seq<(String, Json)>, x: (String, Json))
    ensures
        history_days(a + b) == history_days(a) + history_days(b),
        x.1.array_of() matches Some(items) ==> history_days(seq![x]) == history_dishes(items),
        x.1.array_of() is None ==> history_days(seq![x]).len() == 0,
    decreases b.len(),
{
    if b.len() == 0 {
        assert(a + b =~= a);
    } else {
        law_history_days_day_by_day(a, b.drop_last(), x);
        assert((a + b).drop_last() =~= a + b.drop_last());
        assert((a + b).last() == b.last());
    }
    let sx = seq![x];
    assert(sx.drop_last() =~= Seq::<(String, Json)>::empty());
    assert(sx.last() == x);
    assert(history_days(sx) == history_days(sx.drop_last()) + match x.1.array_of() {
        Some(items) => history_dishes(items),
        None => Seq::<(Seq<char>, Seq<Seq<char>>)>::empty(),
    });
    if let Some(items) = x.1.array_of() {
        assert(history_days(sx) =~= history_dishes(items));
    }
}

/// Each entry of the list of canteens counts on its own, in order: an entry
/// with a name, a town and a street gives its canteen, whatever comes before.
pub proof fn law_cantines_entry_by_entry(a: Seq<CantineData>, b: Seq<CantineData>, x: CantineData)
    ensures
        cantines_of(a + b) == cantines_of(a) + cantines_of(b),
        (x.v_nazev@.len() > 0 && x.v_nazev@[0]@.len() > 0 && x.v_mesto@.len() > 0 && x.v_ulice@.len() > 0)
            ==> cantines_of(seq![x]) == seq![(
                trim(x.zarizeni@[0]@),
                trim(x.v_nazev@[0]@ + ", "@ + x.v_mesto@[0]@ + ", "@ + x.v_ulice@[0]@),
            )],
        !(x.v_nazev@.len() > 0 && x.v_nazev@[0]@.len() > 0 && x.v_mesto@.len() > 0 && x.v_ulice@.len() > 0)
            ==> cantines_of(seq![x]).len() == 0,
    decreases b.len(),
{
    if b.len() == 0 {
        assert(a + b =~= a);
    } else {
        law_cantines_entry_by_entry(a, b.drop_last(), x);
        assert((a + b).drop_last() =~= a + b.drop_last());
        assert((a + b).last() == b.last());
    }
    let sx = seq![x];
    assert(sx.drop_last() =~= Seq::<CantineData>::empty());
    assert(sx.last() == x);
    assert(cantines_of(sx) == cantines_of(sx.drop_last()) + match cantine_of(x) {
        Some(c) => seq![c],
        None => Seq::<(Seq<char>, Seq<char>)>::empty(),
    });
    if let Some(c) = cantine_of(x) {
        assert(cantines_of(sx) =~= seq![c]);
    }
}

/// Every entry of the list of canteens that has a name, a town and a street
/// appears among the canteens.
pub proof fn law_named_cantines_are_listed(data: Seq<CantineData>, i: int)
    requires
        0 <= i < data.len(),
        cantine_of(data[i]) is Some,
    ensures
        cantines_of(data).contains(cantine_of(data[i]).unwrap()),
{
    let a = data.take(i);
    let b = data.skip(i);
    assert(data =~= a + b);
    law_cantines_entry_by_entry(a, b, data[i]);
    let x = seq![data[i]];
    let rest = b.skip(1);
    assert(b =~= x + rest);
    law_cantines_entry_by_entry(x, rest, data[i]);
    let c = cantine_of(data[i]).unwrap();
    assert(cantines_of(data) == cantines_of(a) + (cantines_of(x) + cantines_of(rest)));
    assert(cantines_of(x) == seq![c]);
    assert(cantines_of(data)[cantines_of(a).len() as int] == c);
}

proof fn lemma_upsert_lookup<K, V>(s: Seq<(K, V)>, k: K, v: V, k2: K)
    ensures
        key_index(upsert(s, k, v), k) matches Some(p) && upsert(s, k, v)[p] == (k, v),
        k2 != k ==> key_index(upsert(s, k, v), k2) == key_index(s, k2),
        k2 != k ==> (key_index(s, k2) matches Some(p) ==> upsert(s, k, v)[p] == s[p]),
{
    let t = upsert(s, k, v);
    lemma_key_index(s, k);
    lemma_key_index(t, k);
    lemma_key_index(s, k2);
    lemma_key_index(t, k2);
    match key_index(s, k) {
        Some(idx) => {
            assert(t[idx] == (k, v));
            assert forall|j: int| 0 <= j < t.len() && j != idx implies #[trigger] t[j] == s[j] by {}
            match key_index(t, k) {
                Some(q) => {
                    if q > idx {
                        assert(t[idx].0 == k);
                    } else if q < idx {
                        assert(t[q] == s[q]);
                    }
                },
                None => {
                    assert(t[idx].0 == k);
                },
            }
        },
        None => {
            assert(t[s.len() as int] == (k, v));
            assert forall|j: int| 0 <= j < s.len() implies #[trigger] t[j] == s[j] by {}
            match key_index(t, k) {
                Some(q) => {
                    if q < s.len() {
                        assert(t[q] == s[q]);
                    }
                },
                None => {
                    assert(t[s.len() as int].0 == k);
                },
            }
        },
    }
    if k2 != k {
        match key_index(s, k2) {
            Some(p) => {
                assert(t[p] == s[p]);
                match key_index(t, k2) {
                    Some(q) => {
                        if q < p {
                            if q < s.len() {
                                assert(t[q] == s[q]);
                            }
                        } else if q > p {
                            assert(t[p].0 == k2);
                        }
                    },
                    None => {
                        assert(t[p].0 == k2);
                    },
                }
            },
            None => {
                match key_index(t, k2) {
                    Some(q) => {
                        if q < s.len() {
                            assert(t[q] == s[q]);
                        }
                    },
                    None => {},
                }
            },
        }
    }
}

/// The entry that a known page dish gives in the merged day: the id from the
/// menu of the ordering service, the allergens and the order state from the
/// page.
pub open spec fn page_dish_view(api: Seq<(DayKey, DayMenu)>, k: DayKey, d: DishTexts) -> DishView {
    DishView {
        id: menu_dish(api, k, scraped_name(d.2)).unwrap().id,
        allergens: non_empty(d.0),
        order_state: d.1.len() > 0,
    }
}

/// Every dish of a day of the page that the menu of the ordering service
/// knows on that day under the same name is in the merged day, under that
/// name, with what the last page dish of that name shows.
pub proof fn law_known_page_dishes_are_merged(api: Seq<(DayKey, DayMenu)>, k: DayKey, ds: Seq<DishTexts>, i: int)
    requires
        0 <= i < ds.len(),
        menu_dish(api, k, scraped_name(ds[i].2)) is Some,
    ensures
        has_key(merged_dishes(api, k, ds), scraped_name(ds[i].2)),
        (forall|j: int| i < j < ds.len() ==> scraped_name((#[trigger] ds[j]).2) != scraped_name(ds[i].2)) ==> (key_index(
            merged_dishes(api, k, ds),
            scraped_name(ds[i].2),
        ) matches Some(p) && merged_dishes(api, k, ds)[p] == (scraped_name(ds[i].2), page_dish_view(api, k, ds[i]))),
    decreases ds.len(),
{
    let name = scraped_name(ds[i].2);
    let m = merged_dishes(api, k, ds);
    let n = ds.len() - 1;
    let prev = merged_dishes(api, k, ds.drop_last());
    let d = ds.last();
    let name2 = scraped_name(d.2);
    if i == n {
        lemma_upsert_lookup(prev, name, page_dish_view(api, k, d), name);
        assert(m == upsert(prev, name, page_dish_view(api, k, d)));
        lemma_key_index(m, name);
    } else {
        let p = ds.drop_last();
        assert(p[i] == ds[i]);
        law_known_page_dishes_are_merged(api, k, p, i);
        lemma_key_index(prev, name);
        lemma_key_index(m, name);
        match menu_dish(api, k, name2) {
            Some(info) => {
                lemma_upsert_lookup(prev, name2, page_dish_view(api, k, d), name);
                if name2 == name {
                    lemma_upsert_lookup(prev, name, page_dish_view(api, k, d), name);
                }
            },
            None => {},
        }
        if forall|j: int| i < j < ds.len() ==> scraped_name((#[trigger] ds[j]).2) != name {
            assert(scraped_name(ds[n].2) != name);
            assert forall|j: int| i < j < p.len() implies scraped_name((#[trigger] p[j]).2) != name by {
                assert(p[j] == ds[j]);
            }
        }
    }
}

/// A dish that the strategy `replace` may order in place of a cancelled one:
/// not on the blacklist under its full name with its allergens, and sharing an
/// allergen with the blacklisted ones.
pub open spec fn candidate(s: OrdersCancelingSettings, e: (Seq<char>, DishView)) -> bool {
    &&& !entry_views(s.blacklisted_dishes@).contains((e.0, e.1.allergens))
    &&& exists|x: Seq<char>| e.1.allergens.contains(x) && s.blacklisted_allergens.deep_view().contains(x)
}

/// A candidate that the whitelist holds under its full name with its allergens.
pub open spec fn preferred(s: OrdersCancelingSettings, e: (Seq<char>, DishView)) -> bool {
    &&& candidate(s, e)
    &&& entry_views(s.whitelisted_dishes@).contains((e.0, e.1.allergens))
}

proof fn lemma_candidate(s: OrdersCancelingSettings, e: (Seq<char>, DishView))
    ensures
        candidate(s, e) <==> passes(DishTest::Candidate, s, e),
        preferred(s, e) <==> passes(DishTest::Preferred, s, e),
        caught(s, e) <==> passes(DishTest::Cancel, s, e),
{
    law_listed_anywhere(s.blacklisted_dishes@, e.0, e.1.allergens);
    law_listed_anywhere(s.whitelisted_dishes@, e.0, e.1.allergens);
    law_shared_allergen(e.1.allergens, s.blacklisted_allergens.deep_view());
    lemma_caught(s, e);
}

/// With the strategy `replace`, a day gets orders exactly when one of its
/// ordered dishes is caught as `cancel` catches it: the first such dish is
/// cancelled, and then, where the day has a candidate, one portion of the
/// first preferred candidate, or of the first candidate where none is
/// preferred, is ordered.
pub proof fn law_replace_day(s: OrdersCancelingSettings, d: Seq<(Seq<char>, DishView)>)
    ensures
        day_orders(Strategy::Replace, s, d).len() > 0 <==> exists|j: int| 0 <= j < d.len() && #[trigger] caught(s, d[j]),
        day_orders(Strategy::Replace, s, d).len() > 0 ==> exists|j: int| 0 <= j < d.len() && #[trigger] caught(s, d[j])
            && (forall|k: int| 0 <= k < j ==> !caught(s, #[trigger] d[k]))
            && day_orders(Strategy::Replace, s, d)[0] == (d[j].1.id, 0u8),
        day_orders(Strategy::Replace, s, d).len() > 0 ==> (day_orders(Strategy::Replace, s, d).len() == 2
            <==> exists|c: int| 0 <= c < d.len() && #[trigger] candidate(s, d[c])),
        day_orders(Strategy::Replace, s, d).len() <= 2,
        day_orders(Strategy::Replace, s, d).len() == 2 ==> exists|c: int| 0 <= c < d.len() && #[trigger] candidate(s, d[c])
            && day_orders(Strategy::Replace, s, d)[1] == (d[c].1.id, 1u8)
            && (preferred(s, d[c]) ==> forall|k: int| 0 <= k < c ==> !preferred(s, #[trigger] d[k]))
            && (!preferred(s, d[c]) ==> (forall|k: int| 0 <= k < d.len() ==> !preferred(s, #[trigger] d[k]))
                && forall|k: int| 0 <= k < c ==> !candidate(s, #[trigger] d[k])),
{
    let o = day_orders(Strategy::Replace, s, d);
    law_cancel_catches_blacklisted(s, d);
    lemma_first_is_first(DishTest::Cancel, s, d);
    lemma_first_is_first(DishTest::Preferred, s, d);
    lemma_first_is_first(DishTest::Candidate, s, d);
    assert forall|k: int| 0 <= k < d.len() implies (candidate(s, #[trigger] d[k]) <==> passes(DishTest::Candidate, s, d[k]))
        && (preferred(s, d[k]) <==> passes(DishTest::Preferred, s, d[k])) && (caught(s, d[k]) <==> passes(DishTest::Cancel, s, d[k])) by {
        lemma_candidate(s, d[k]);
    }
    match first(DishTest::Cancel, s, d) {
        Some(j) => {
            assert(caught(s, d[j]));
            assert(o[0] == (d[j].1.id, 0u8));
            match first(DishTest::Preferred, s, d) {
                Some(p) => {
                    assert(candidate(s, d[p]));
                    assert(o[1] == (d[p].1.id, 1u8));
                    assert(o.len() == 2);
                },
                None => {
                    match first(DishTest::Candidate, s, d) {
                        Some(c) => {
                            assert(candidate(s, d[c]));
                            assert(o[1] == (d[c].1.id, 1u8));
                            assert forall|k: int| 0 <= k < d.len() implies !preferred(s, #[trigger] d[k]) by {
                                if preferred(s, d[k]) {
                                    lemma_first_exists(DishTest::Preferred, s, d, k);
                                }
                            }
                        },
                        None => {
                            assert forall|k: int| 0 <= k < d.len() implies !candidate(s, #[trigger] d[k]) by {
                                if candidate(s, d[k]) {
                                    lemma_first_exists(DishTest::Candidate, s, d, k);
                                }
                            }
                            assert(o.len() == 1);
                        },
                    }
                },
            }
        },
        None => {},
    }
}

/// The strategy names what the automatic canceling does: `cancel`, `replace`
/// and `cancelAll` their orders day after day, `disabled` nothing, and any
/// other name is refused.
pub proof fn law_plan_follows_strategy(s: OrdersCancelingSettings, days: Seq<Seq<(Seq<char>, DishView)>>)
    ensures
        s.strategy@ == "cancel"@ ==> plan_of(s, days) == Ok::<Option<Seq<(Seq<char>, u8)>>, Seq<char>>(Some(menu_orders(Strategy::Cancel, s, days))),
        s.strategy@ == "replace"@ ==> plan_of(s, days) == Ok::<Option<Seq<(Seq<char>, u8)>>, Seq<char>>(Some(menu_orders(Strategy::Replace, s, days))),
        s.strategy@ == "cancelAll"@ ==> plan_of(s, days) == Ok::<Option<Seq<(Seq<char>, u8)>>, Seq<char>>(Some(menu_orders(Strategy::CancelAll, s, days))),
        s.strategy@ == "disabled"@ ==> plan_of(s, days) == Ok::<Option<Seq<(Seq<char>, u8)>>, Seq<char>>(None),
        (s.strategy@ != "cancel"@ && s.strategy@ != "replace"@ && s.strategy@ != "cancelAll"@ && s.strategy@ != "disabled"@)
            ==> plan_of(s, days) == Err::<Option<Seq<(Seq<char>, u8)>>, Seq<char>>("Unknown strategy"@),
{
    reveal_strlit("disabled");
    reveal_strlit("cancel");
    reveal_strlit("replace");
    reveal_strlit("cancelAll");
    assert("disabled"@[0] == 'd');
    assert("cancel"@[0] == 'c' && "cancel"@.len() == 6);
    assert("cancelAll"@.len() == 9);
    assert("replace"@[0] == 'r');
}

/// The orders of a menu are those of each day in turn.
pub proof fn law_menu_orders_day_by_day(
    st: Strategy,
    s: OrdersCancelingSettings,
    a: Seq<Seq<(Seq<char>, DishView)>>,
    b: Seq<Seq<(Seq<char>, DishView)>>,
    x: Seq<(Seq<char>, DishView)>,
)
    ensures
        menu_orders(st, s, a + b) == menu_orders(st, s, a) + menu_orders(st, s, b),
        menu_orders(st, s, seq![x]) == day_orders(st, s, x),
    decreases b.len(),
{
    if b.len() == 0 {
        assert(a + b =~= a);
    } else {
        law_menu_orders_day_by_day(st, s, a, b.drop_last(), x);
        assert((a + b).drop_last() =~= a + b.drop_last());
        assert((a + b).last() == b.last());
    }
    let sx = seq![x];
    assert(sx.drop_last() =~= Seq::<Seq<(Seq<char>, DishView)>>::empty());
    assert(sx.last() == x);
    assert(menu_orders(st, s, sx) == menu_orders(st, s, sx.drop_last()) + day_orders(st, s, sx.last()));
    assert(menu_orders(st, s, sx.drop_last()) == Seq::<(Seq<char>, u8)>::empty());
    assert(menu_orders(st, s, sx) =~= day_orders(st, s, x));
}

/// The strategy `cancelAll` cancels every ordered dish of a day, in order, and
/// no other: each dish counts on its own.
pub proof fn law_cancel_all_dish_by_dish(
    s: OrdersCancelingSettings,
    a: Seq<(Seq<char>, DishView)>,
    b: Seq<(Seq<char>, DishView)>,
    e: (Seq<char>, DishView),
)
    ensures
        day_orders(Strategy::CancelAll, s, a + b) == day_orders(Strategy::CancelAll, s, a) + day_orders(Strategy::CancelAll, s, b),
        e.1.order_state ==> day_orders(Strategy::CancelAll, s, seq![e]) == seq![(e.1.id, 0u8)],
        !e.1.order_state ==> day_orders(Strategy::CancelAll, s, seq![e]).len() == 0,
    decreases b.len(),
{
    if b.len() == 0 {
        assert(a + b =~= a);
    } else {
        law_cancel_all_dish_by_dish(s, a, b.drop_last(), e);
        assert((a + b).drop_last() =~= a + b.drop_last());
        assert((a + b).last() == b.last());
    }
    let se = seq![e];
    assert(se.drop_last() =~= Seq::<(Seq<char>, DishView)>::empty());
    assert(se.last() == e);
    let tail = if e.1.order_state { seq![(e.1.id, 0u8)] } else { Seq::<(Seq<char>, u8)>::empty() };
    assert(ordered_ids(se) == ordered_ids(se.drop_last()) + tail);
    assert(ordered_ids(se.drop_last()) == Seq::<(Seq<char>, u8)>::empty());
    assert(ordered_ids(se) =~= tail);
    assert(day_orders(Strategy::CancelAll, s, se) == ordered_ids(se));
}

/// A canteen's menu is the days of the first item of the list the service
/// sends, where that is an object; nothing otherwise.
pub proof fn law_history_menu(j: Json)
    ensures
        (j.array_of() matches Some(items) && items.len() > 0 && items[0].object_of() is Some) ==> history_menu(j)
            == history_days(j.array_of().unwrap()[0].object_of().unwrap()),
        !(j.array_of() matches Some(items) && items.len() > 0 && items[0].object_of() is Some) ==> history_menu(j).len() == 0,
{
}

/// A day of the page whose heading shows no date.
pub open spec fn heading_without_date(d: DayTexts) -> bool {
    &&& d.0.len() > 0
    &&& date_fields(heading_date_text(d.0[0])) is None
}

/// A day of the page whose heading shows a date on which the menu of the
/// ordering service knows one of its dishes.
pub open spec fn day_with_known_dishes(api: Seq<(DayKey, DayMenu)>, d: DayTexts) -> bool {
    &&& d.0.len() > 0
    &&& date_fields(heading_date_text(d.0[0])) is Some
    &&& merged_dishes(api, date_fields(heading_date_text(d.0[0])).unwrap(), d.1).len() > 0
}

proof fn lemma_merged_day_none(api: Seq<(DayKey, DayMenu)>, d: DayTexts)
    ensures
        merged_day(api, d) is None <==> heading_without_date(d),
{
}

proof fn lemma_merged_days_step(api: Seq<(DayKey, DayMenu)>, days: Seq<DayTexts>)
    requires
        days.len() > 0,
    ensures
        merged_days(api, days) is None <==> (merged_days(api, days.drop_last()) is None || merged_day(api, days.last()) is None),
{
}

proof fn lemma_merged_days_none(api: Seq<(DayKey, DayMenu)>, days: Seq<DayTexts>)
    ensures
        merged_days(api, days) is None <==> exists|i: int| 0 <= i < days.len() && heading_without_date(#[trigger] days[i]),
    decreases days.len(),
{
    if days.len() > 0 {
        let p = days.drop_last();
        let n = days.len() - 1;
        let last = days[n];
        assert(days.last() == last);
        lemma_merged_days_none(api, p);
        lemma_merged_days_step(api, days);
        lemma_merged_day_none(api, last);
        if merged_days(api, p) is None {
            let i = choose|i: int| 0 <= i < p.len() && heading_without_date(#[trigger] p[i]);
            assert(p[i] == days[i]);
        }
        if exists|i: int| 0 <= i < days.len() && heading_without_date(#[trigger] days[i]) {
            let i = choose|i: int| 0 <= i < days.len() && heading_without_date(#[trigger] days[i]);
            if i < n {
                assert(p[i] == days[i]);
                assert(heading_without_date(p[i]));
            }
        }
    }
}

proof fn lemma_keeps_key(s: Seq<(DayKey, DayView)>, k2: DayKey, v: DayView, k: DayKey)
    requires
        has_key(s, k) || k2 == k,
    ensures
        has_key(upsert(s, k2, v), k),
{
    lemma_upsert_lookup(s, k2, v, k);
    lemma_key_index(s, k);
    lemma_key_index(upsert(s, k2, v), k);
}

proof fn lemma_merged_days_some_step(api: Seq<(DayKey, DayMenu)>, days: Seq<DayTexts>)
    requires
        days.len() > 0,
        merged_days(api, days) is Some,
    ensures
        merged_days(api, days.drop_last()) is Some,
        merged_day(api, days.last()) matches Some(Some((k2, v))) ==> merged_days(api, days).unwrap() == upsert(
            merged_days(api, days.drop_last()).unwrap(),
            k2,
            v,
        ),
        merged_day(api, days.last()) matches Some(None) ==> merged_days(api, days).unwrap() == merged_days(api, days.drop_last()).unwrap(),
        merged_day(api, days.last()) is Some,
{
}

proof fn lemma_merged_day_key(api: Seq<(DayKey, DayMenu)>, d: DayTexts)
    requires
        day_with_known_dishes(api, d),
    ensures
        merged_day(api, d) matches Some(Some((k2, v))) && k2 == date_fields(heading_date_text(d.0[0])).unwrap(),
{
}

#[verifier::spinoff_prover]
proof fn lemma_merged_days_keys(api: Seq<(DayKey, DayMenu)>, days: Seq<DayTexts>, i: int)
    requires
        0 <= i < days.len(),
        day_with_known_dishes(api, days[i]),
        merged_days(api, days) is Some,
    ensures
        has_key(merged_days(api, days).unwrap(), date_fields(heading_date_text(days[i].0[0])).unwrap()),
    decreases days.len(),
{
    let p = days.drop_last();
    let n = days.len() - 1;
    let last = days.last();
    assert(days[n] == last);
    let k = date_fields(heading_date_text(days[i].0[0])).unwrap();
    lemma_merged_days_some_step(api, days);
    let s = merged_days(api, p).unwrap();
    let r = merged_days(api, days).unwrap();
    if i == n {
        lemma_merged_day_key(api, last);
        let v = merged_day(api, last).unwrap().unwrap().1;
        lemma_keeps_key(s, k, v, k);
    } else {
        assert(p[i] == days[i]);
        lemma_merged_days_keys(api, p, i);
        match merged_day(api, last) {
            Some(Some((k2, v))) => {
                lemma_keeps_key(s, k2, v, k);
            },
            _ => {},
        }
    }
}

/// Merging the page with the menu fails exactly when a day's heading shows no
/// date; otherwise every day of the page with a dish that the menu knows on
/// that date is in the merged menu under its date.
pub proof fn law_page_days_are_merged(api: Seq<(DayKey, DayMenu)>, days: Seq<DayTexts>)
    ensures
        merged_days(api, days) is None <==> exists|i: int| 0 <= i < days.len() && heading_without_date(#[trigger] days[i]),
        merged_days(api, days) matches Some(r) ==> forall|i: int| 0 <= i < days.len() && day_with_known_dishes(api, #[trigger] days[i])
            ==> has_key(r, date_fields(heading_date_text(days[i].0[0])).unwrap()),
{
    lemma_merged_days_none(api, days);
    if merged_days(api, days) is Some {
        assert forall|i: int| 0 <= i < days.len() && day_with_known_dishes(api, #[trigger] days[i])
            implies has_key(merged_days(api, days).unwrap(), date_fields(heading_date_text(days[i].0[0])).unwrap()) by {
            lemma_merged_days_keys(api, days, i);
        }
    }
}

/// Digits are dropped one character at a time: every other character stays,
/// in order.
pub proof fn law_drop_digits_char_by_char(a: Seq<char>, b: Seq<char>, c: char)
    ensures
        drop_digits(a + b) == drop_digits(a) + drop_digits(b),
        is_digit(c) ==> drop_digits(seq![c]).len() == 0,
        !is_digit(c) ==> drop_digits(seq![c]) == seq![c],
    decreases b.len(),
{
    if b.len() == 0 {
        assert(a + b =~= a);
        assert(drop_digits(b) =~= Seq::<char>::empty());
        assert(drop_digits(a) + drop_digits(b) =~= drop_digits(a));
    } else {
        law_drop_digits_char_by_char(a, b.drop_last(), c);
        assert((a + b).drop_last() =~= a + b.drop_last());
        assert((a + b).last() == b.last());
        if !is_digit(b.last()) {
            assert(drop_digits(a) + drop_digits(b.drop_last()).push(b.last()) =~= (drop_digits(a) + drop_digits(b.drop_last())).push(b.last()));
        }
    }
    let sc = seq![c];
    assert(sc.drop_last() =~= Seq::<char>::empty());
    assert(sc.last() == c);
    assert(drop_digits(sc.drop_last()) =~= Seq::<char>::empty());
    if !is_digit(c) {
        assert(drop_digits(sc) =~= seq![c]);
    }
}

/// The allergen texts of a page dish that are kept are the non-empty ones,
/// each on its own, in order.
pub proof fn law_non_empty_text_by_text(a: Seq<Seq<char>>, b: Seq<Seq<char>>, x: Seq<char>)
    ensures
        non_empty(a + b) == non_empty(a) + non_empty(b),
        x.len() > 0 ==> non_empty(seq![x]) == seq![x],
        x.len() == 0 ==> non_empty(seq![x]).len() == 0,
    decreases b.len(),
{
    if b.len() == 0 {
        assert(a + b =~= a);
    } else {
        law_non_empty_text_by_text(a, b.drop_last(), x);
        assert((a + b).drop_last() =~= a + b.drop_last());
        assert((a + b).last() == b.last());
    }
    let sx = seq![x];
    assert(sx.drop_last() =~= Seq::<Seq<char>>::empty());
    assert(sx.last() == x);
    assert(non_empty(sx) == non_empty(sx.drop_last()) + if x.len() > 0 { seq![x] } else { Seq::<Seq<char>>::empty() });
    assert(non_empty(sx.drop_last()) == Seq::<Seq<char>>::empty());
    if x.len() > 0 {
        assert(non_empty(sx) =~= seq![x]);
    }
}

/// The pieces of a page dish's name each count on their own: a piece that is
/// not blank gives its trimmed text and a space, a blank one nothing.
pub proof fn law_name_words_piece_by_piece(a: Seq<Seq<char>>, b: Seq<Seq<char>>, x: Seq<char>)
    ensures
        name_words(a + b) == name_words(a) + name_words(b),
        trim(x).len() > 0 ==> name_words(seq![x]) == trim(x).push(' '),
        trim(x).len() == 0 ==> name_words(seq![x]).len() == 0,
    decreases b.len(),
{
    if b.len() == 0 {
        assert(a + b =~= a);
        assert(name_words(a) + name_words(b) =~= name_words(a));
    } else {
        law_name_words_piece_by_piece(a, b.drop_last(), x);
        assert((a + b).drop_last() =~= a + b.drop_last());
        assert((a + b).last() == b.last());
        let tail = if trim(b.last()).len() > 0 { trim(b.last()).push(' ') } else { Seq::<char>::empty() };
        assert(name_words(a) + (name_words(b.drop_last()) + tail) =~= (name_words(a) + name_words(b.drop_last())) + tail);
    }
    let sx = seq![x];
    assert(sx.drop_last() =~= Seq::<Seq<char>>::empty());
    assert(sx.last() == x);
    let tail = if trim(x).len() > 0 { trim(x).push(' ') } else { Seq::<char>::empty() };
    assert(name_words(sx) == name_words(sx.drop_last()) + tail);
    assert(name_words(sx.drop_last()) == Seq::<char>::empty());
    assert(name_words(sx) =~= tail);
}

/// The pieces of a heading are joined one after the other, nothing between.
pub proof fn law_joined_piece_by_piece(a: Seq<Seq<char>>, b: Seq<Seq<char>>, x: Seq<char>)
    ensures
        joined(a + b) == joined(a) + joined(b),
        joined(seq![x]) == x,
    decreases b.len(),
{
    if b.len() == 0 {
        assert(a + b =~= a);
        assert(joined(a) + joined(b) =~= joined(a));
    } else {
        law_joined_piece_by_piece(a, b.drop_last(), x);
        assert((a + b).drop_last() =~= a + b.drop_last());
        assert((a + b).last() == b.last());
        assert(joined(a) + (joined(b.drop_last()) + b.last()) =~= (joined(a) + joined(b.drop_last())) + b.last());
    }
    let sx = seq![x];
    assert(sx.drop_last() =~= Seq::<Seq<char>>::empty());
    assert(sx.last() == x);
    assert(joined(sx) == joined(sx.drop_last()) + x);
    assert(joined(sx.drop_last()) == Seq::<char>::empty());
    assert(joined(sx) =~= x);
}

/// A day heading `weekday date` (neither part holding a space) shows the date.
pub proof fn law_heading_date(w: Seq<char>, date: Seq<char>)
    requires
        forall|i: int| 0 <= i < w.len() ==> #[trigger] w[i] != ' ',
        forall|i: int| 0 <= i < date.len() ==> #[trigger] date[i] != ' ',
    ensures
        heading_date_text(w + seq![' '] + date) == date,
{
    lemma_sep_after(w, ' ', date);
    lemma_no_sep(date, ' ');
    assert(split(w + seq![' '] + date, ' ').drop_first() =~= seq![date]);
    law_joined_piece_by_piece(Seq::<Seq<char>>::empty(), Seq::<Seq<char>>::empty(), date);
}

/// The blacklists of `s2` hold those of `s1`: every blacklisted dish of `s1`
/// is listed in `s2`, every blacklisted allergen of `s1` is one of `s2`.
pub open spec fn blacklists_grow(s1: OrdersCancelingSettings, s2: OrdersCancelingSettings) -> bool {
    &&& forall|i: int| 0 <= i < s1.blacklisted_dishes@.len() ==> is_listed(
        s2.blacklisted_dishes@,
        (#[trigger] s1.blacklisted_dishes@[i])@.0,
        s1.blacklisted_dishes@[i]@.1,
    )
    &&& forall|i: int| 0 <= i < s1.blacklisted_allergens@.len() ==> s2.blacklisted_allergens.deep_view().contains(
        #[trigger] s1.blacklisted_allergens.deep_view()[i],
    )
}

proof fn lemma_cancel_test_grows(s1: OrdersCancelingSettings, s2: OrdersCancelingSettings, e: (Seq<char>, DishView))
    requires
        blacklists_grow(s1, s2),
        passes(DishTest::Cancel, s1, e),
    ensures
        passes(DishTest::Cancel, s2, e),
{
    let n = crate::settings::blacklist_name(e.0).unwrap();
    if is_listed(s1.blacklisted_dishes@, n, e.1.allergens) {
        let i = choose|i: int| 0 <= i < s1.blacklisted_dishes@.len() && (#[trigger] s1.blacklisted_dishes@[i])@ == (n, e.1.allergens);
        assert(is_listed(s2.blacklisted_dishes@, s1.blacklisted_dishes@[i]@.0, s1.blacklisted_dishes@[i]@.1));
    } else {
        let b1 = s1.blacklisted_allergens.deep_view();
        let b2 = s2.blacklisted_allergens.deep_view();
        assert(shares_allergen(e.1.allergens, b1));
        let (i, j) = choose|i: int, j: int| 0 <= i < e.1.allergens.len() && 0 <= j < b1.len() && #[trigger] e.1.allergens[i] == #[trigger] b1[j];
        assert(b2.contains(b1[j]));
        let k = choose|k: int| 0 <= k < b2.len() && b2[k] == b1[j];
        assert(e.1.allergens[i] == b2[k]);
        assert(shares_allergen(e.1.allergens, b2));
    }
}

/// With the strategy `cancel`, growing the blacklists never takes a
/// cancellation away: on every day on which the smaller blacklists cancel a
/// dish, the larger ones cancel one too.
pub proof fn law_cancel_grows_with_blacklists(
    s1: OrdersCancelingSettings,
    s2: OrdersCancelingSettings,
    days: Seq<Seq<(Seq<char>, DishView)>>,
)
    requires
        s1.strategy@ == "cancel"@,
        s2.strategy@ == "cancel"@,
        blacklists_grow(s1, s2),
    ensures
        forall|i: int| 0 <= i < days.len() && #[trigger] day_orders(Strategy::Cancel, s1, days[i]).len() > 0
            ==> day_orders(Strategy::Cancel, s2, days[i]).len() > 0,
{
    assert forall|i: int| 0 <= i < days.len() && #[trigger] day_orders(Strategy::Cancel, s1, days[i]).len() > 0
        implies day_orders(Strategy::Cancel, s2, days[i]).len() > 0 by {
        let d = days[i];
        lemma_first_is_first(DishTest::Cancel, s1, d);
        let j = first(DishTest::Cancel, s1, d).unwrap();
        lemma_cancel_test_grows(s1, s2, d[j]);
        lemma_first_exists(DishTest::Cancel, s2, d, j);
    }
}

proof fn lemma_trim_start(s: Seq<char>)
    ensures
        trim_start(s).len() > 0 ==> !is_ws(trim_start(s)[0]),
    decreases s.len(),
{
    if s.len() > 0 && is_ws(s[0]) {
        lemma_trim_start(s.drop_first());
    }
}

proof fn lemma_trim_end(s: Seq<char>)
    ensures
        trim_end(s).len() > 0 ==> !is_ws(trim_end(s).last()) && trim_end(s)[0] == s[0],
        trim_end(s).len() <= s.len(),
        trim_end(trim_end(s)) == trim_end(s),
    decreases s.len(),
{
    if s.len() > 0 && is_ws(s.last()) {
        lemma_trim_end(s.drop_last());
    }
}

/// Trimming leaves neither leading nor trailing white space, and trimming
/// again changes nothing.
pub proof fn law_trim(s: Seq<char>)
    ensures
        trim(s).len() > 0 ==> !is_ws(trim(s)[0]) && !is_ws(trim(s).last()),
        trim(trim(s)) == trim(s),
{
    let a = trim_start(s);
    lemma_trim_start(s);
    lemma_trim_end(a);
    let b = trim_end(a);
    if b.len() > 0 {
        assert(b[0] == a[0]);
    }
    // trim(b) = trim_end(trim_start(b)); trim_start(b) == b as b does not start with white space
    assert(trim_start(b) == b) by {
        if b.len() > 0 {
            assert(!is_ws(b[0]));
        }
    }
    lemma_trim_end(b);
}

/// Percent-encoding gives only URL-safe characters, `%` and upper-case hex
/// digits.
pub proof fn law_percent_encoding_is_url_safe(bytes: Seq<u8>)
    ensures
        forall|i: int| 0 <= i < percent_encode(bytes).len() ==> {
            let c = #[trigger] percent_encode(bytes)[i];
            ||| ('0' <= c && c <= '9')
            ||| ('A' <= c && c <= 'Z')
            ||| ('a' <= c && c <= 'z')
            ||| c == '-' || c == '.' || c == '_' || c == '~' || c == '%'
        },
    decreases bytes.len(),
{
    if bytes.len() > 0 {
        law_percent_encoding_is_url_safe(bytes.drop_first());
        let b = bytes[0];
        let head = if is_url_safe(b) {
            seq![b as char]
        } else {
            seq!['%', hex_digit(b as int / 16), hex_digit(b as int % 16)]
        };
        let rest = percent_encode(bytes.drop_first());
        assert(percent_encode(bytes) == head + rest);
        assert forall|i: int| 0 <= i < percent_encode(bytes).len() implies {
            let c = #[trigger] percent_encode(bytes)[i];
            ||| ('0' <= c && c <= '9')
            ||| ('A' <= c && c <= 'Z')
            ||| ('a' <= c && c <= 'z')
            ||| c == '-' || c == '.' || c == '_' || c == '~' || c == '%'
        } by {
            if i >= head.len() {
                assert(percent_encode(bytes)[i] == rest[i - head.len()]);
            }
        }
    }
}

/// A string written as JSON holds no raw control character and no `"` that
/// is not escaped by a backslash.
pub proof fn law_escaped_has_no_control_characters(s: Seq<char>)
    ensures
        forall|i: int| 0 <= i < escaped(s).len() ==> (#[trigger] escaped(s)[i] as u32) >= 32,
        forall|i: int| 0 <= i < escaped(s).len() && #[trigger] escaped(s)[i] == '"' ==> i > 0 && escaped(s)[i - 1] == '\\',
    decreases s.len(),
{
    if s.len() > 0 {
        let p = s.drop_last();
        law_escaped_has_no_control_characters(p);
        let e = escape_char(s.last());
        assert(escaped(s) == escaped(p) + e);
        assert forall|i: int| 0 <= i < escaped(s).len() implies (#[trigger] escaped(s)[i] as u32) >= 32 by {
            if i < escaped(p).len() {
                assert(escaped(s)[i] == escaped(p)[i]);
            } else {
                assert(escaped(s)[i] == e[i - escaped(p).len()]);
            }
        }
        assert forall|i: int| 0 <= i < escaped(s).len() && #[trigger] escaped(s)[i] == '"' implies i > 0 && escaped(s)[i - 1] == '\\' by {
            if i < escaped(p).len() {
                assert(escaped(s)[i] == escaped(p)[i]);
                assert(escaped(s)[i - 1] == escaped(p)[i - 1]);
            } else {
                assert(escaped(s)[i] == e[i - escaped(p).len()]);
                if i > escaped(p).len() {
                    assert(escaped(s)[i - 1] == e[i - 1 - escaped(p).len()]);
                }
            }
        }
    }
}

/// Two dates of the same day carry the same name of the weekday.
pub proof fn law_same_day_same_weekday_name(a: Date, b: Date, sa: Seq<char>, sb: Seq<char>)
    requires
        a.describes(sa),
        b.describes(sb),
        a.key() == b.key(),
    ensures
        a.day_of_week@ == b.day_of_week@,
        a.day_of_week@ == czech_weekday(weekday_from_monday(a.year, a.month, a.day)),
{
}


/// Every day of a menu read from the ordering service carries the Czech name
/// of the weekday of its date.
pub proof fn law_menu_days_named_by_weekday(members: Seq<(String, Json)>)
    ensures
        forall|k: DayKey| #[trigger] menu_days(members).contains_key(k) ==> menu_days(members)[k].day_of_week
            == czech_weekday(weekday_from_monday(k.0, k.1, k.2)),
    decreases members.len(),
{
    if members.len() > 0 {
        let p = members.drop_last();
        law_menu_days_named_by_weekday(p);
        let items = members.last().1.array_of().unwrap();
        let nk = member_key(items);
        let m = menu_days(members);
        assert(m == menu_days(p).insert(nk, member_day(items)));
        assert forall|k: DayKey| #[trigger] m.contains_key(k) implies m[k].day_of_week == czech_weekday(
            weekday_from_monday(k.0, k.1, k.2),
        ) by {
            if k != nk {
                assert(menu_days(p).contains_key(k));
                assert(m[k] == menu_days(p)[k]);
            }
        }
    }
}

/// The date key of a member of a menu object.
pub open spec fn member_date(m: (String, Json)) -> DayKey {
    member_key(m.1.array_of().unwrap())
}

/// No two members of a menu object are days of the same date.
pub open spec fn distinct_dates(members: Seq<(String, Json)>) -> bool {
    forall|i: int, j: int| 0 <= i < j < members.len() ==> member_date(#[trigger] members[i]) != member_date(#[trigger] members[j])
}

/// The days of a menu object, without the names of its members.
pub open spec fn day_arrays(members: Seq<(String, Json)>) -> Seq<Json> {
    members.map_values(|m: (String, Json)| m.1)
}

proof fn lemma_menu_days_keys(members: Seq<(String, Json)>)
    ensures
        forall|k: DayKey| #[trigger] menu_days(members).contains_key(k) <==> exists|i: int| 0 <= i < members.len() && member_date(#[trigger] members[i]) == k,
        distinct_dates(members) ==> forall|i: int| 0 <= i < members.len() ==> menu_days(members)[member_date(#[trigger] members[i])] == member_day(members[i].1.array_of().unwrap()),
    decreases members.len(),
{
    if members.len() > 0 {
        let p = members.drop_last();
        lemma_menu_days_keys(p);
        let n = members.len() - 1;
        let m = menu_days(members);
        let nk = member_date(members[n]);
        assert(m == menu_days(p).insert(nk, member_day(members[n].1.array_of().unwrap())));
        assert forall|k: DayKey| #[trigger] m.contains_key(k) <==> exists|i: int| 0 <= i < members.len() && member_date(#[trigger] members[i]) == k by {
            if m.contains_key(k) && k != nk {
                let i = choose|i: int| 0 <= i < p.len() && member_date(#[trigger] p[i]) == k;
                assert(members[i] == p[i]);
            }
            if exists|i: int| 0 <= i < members.len() && member_date(#[trigger] members[i]) == k {
                let i = choose|i: int| 0 <= i < members.len() && member_date(#[trigger] members[i]) == k;
                if i < n {
                    assert(members[i] == p[i]);
                }
            }
        }
        if distinct_dates(members) {
            assert(distinct_dates(p)) by {
                assert forall|i: int, j: int| 0 <= i < j < p.len() implies member_date(#[trigger] p[i]) != member_date(#[trigger] p[j]) by {
                    assert(p[i] == members[i] && p[j] == members[j]);
                }
            }
            assert forall|i: int| 0 <= i < members.len() implies m[member_date(#[trigger] members[i])] == member_day(members[i].1.array_of().unwrap()) by {
                if i < n {
                    assert(members[i] == p[i]);
                    assert(member_date(members[i]) != nk);
                }
            }
        }
    }
}

proof fn lemma_same_days_same_map(m1: Seq<(String, Json)>, m2: Seq<(String, Json)>)
    requires
        distinct_dates(m1),
        distinct_dates(m2),
        forall|i: int| 0 <= i < m2.len() ==> day_arrays(m1).contains(#[trigger] m2[i].1),
        forall|i: int| 0 <= i < m1.len() ==> day_arrays(m2).contains(#[trigger] m1[i].1),
    ensures
        menu_days(m1) == menu_days(m2),
{
    lemma_menu_days_keys(m1);
    lemma_menu_days_keys(m2);
    let a = menu_days(m1);
    let b = menu_days(m2);
    assert forall|k: DayKey| #[trigger] a.contains_key(k) implies b.contains_key(k) && a[k] == b[k] by {
        let i = choose|i: int| 0 <= i < m1.len() && member_date(#[trigger] m1[i]) == k;
        assert(day_arrays(m2).contains(m1[i].1));
        let j = choose|j: int| 0 <= j < day_arrays(m2).len() && day_arrays(m2)[j] == m1[i].1;
        assert(m2[j].1 == m1[i].1);
        assert(member_date(m2[j]) == k);
    }
    assert forall|k: DayKey| #[trigger] b.contains_key(k) implies a.contains_key(k) by {
        let j = choose|j: int| 0 <= j < m2.len() && member_date(#[trigger] m2[j]) == k;
        assert(day_arrays(m1).contains(m2[j].1));
        let i = choose|i: int| 0 <= i < day_arrays(m1).len() && day_arrays(m1)[i] == m2[j].1;
        assert(m1[i].1 == m2[j].1);
        assert(member_date(m1[i]) == k);
    }
    assert(a =~= b);
}

/// The date keys of the days, in order.
pub open spec fn day_keys(r: Seq<(DayKey, DayMenu)>) -> Seq<DayKey> {
    r.map_values(|e: (DayKey, DayMenu)| e.0)
}

proof fn lemma_increasing_equal(a: Seq<DayKey>, b: Seq<DayKey>)
    requires
        forall|i: int, j: int| 0 <= i < j < a.len() ==> key_lt(#[trigger] a[i], #[trigger] a[j]),
        forall|i: int, j: int| 0 <= i < j < b.len() ==> key_lt(#[trigger] b[i], #[trigger] b[j]),
        forall|i: int| 0 <= i < a.len() ==> b.contains(#[trigger] a[i]),
        forall|i: int| 0 <= i < b.len() ==> a.contains(#[trigger] b[i]),
    ensures
        a == b,
    decreases a.len(),
{
    if a.len() == 0 {
        if b.len() > 0 {
            assert(a.contains(b[0]));
        }
        assert(a =~= b);
    } else {
        if b.len() == 0 {
            assert(b.contains(a[0]));
        }
        assert(b.contains(a[0]));
        assert(a.contains(b[0]));
        let j = choose|j: int| 0 <= j < b.len() && b[j] == a[0];
        let i = choose|i: int| 0 <= i < a.len() && a[i] == b[0];
        if j > 0 {
            assert(key_lt(b[0], b[j]));
            if i > 0 {
                assert(key_lt(a[0], a[i]));
            }
        }
        assert(a[0] == b[0]);
        let a1 = a.drop_first();
        let b1 = b.drop_first();
        assert forall|x: int| 0 <= x < a1.len() implies b1.contains(#[trigger] a1[x]) by {
            assert(a1[x] == a[x + 1]);
            assert(key_lt(a[0], a[x + 1]));
            assert(b.contains(a[x + 1]));
            let y = choose|y: int| 0 <= y < b.len() && b[y] == a[x + 1];
            assert(y != 0);
            assert(b1[y - 1] == b[y]);
        }
        assert forall|x: int| 0 <= x < b1.len() implies a1.contains(#[trigger] b1[x]) by {
            assert(b1[x] == b[x + 1]);
            assert(key_lt(b[0], b[x + 1]));
            assert(a.contains(b[x + 1]));
            let y = choose|y: int| 0 <= y < a.len() && a[y] == b[x + 1];
            assert(y != 0);
            assert(a1[y - 1] == a[y]);
        }
        assert forall|x: int, y: int| 0 <= x < y < a1.len() implies key_lt(#[trigger] a1[x], #[trigger] a1[y]) by {
            assert(a1[x] == a[x + 1] && a1[y] == a[y + 1]);
        }
        assert forall|x: int, y: int| 0 <= x < y < b1.len() implies key_lt(#[trigger] b1[x], #[trigger] b1[y]) by {
            assert(b1[x] == b[x + 1] && b1[y] == b[y + 1]);
        }
        lemma_increasing_equal(a1, b1);
        assert(a =~= b) by {
            assert forall|x: int| 0 <= x < a.len() implies a[x] == b[x] by {
                if x > 0 {
                    assert(a[x] == a1[x - 1] && b[x] == b1[x - 1]);
                }
            }
        }
    }
}

proof fn lemma_sorted_days_equal(r1: Seq<(DayKey, DayMenu)>, r2: Seq<(DayKey, DayMenu)>, m: Map<DayKey, crate::menu::DayView>)
    requires
        strictly_sorted(r1),
        strictly_sorted(r2),
        days_match(r1, m),
        days_match(r2, m),
    ensures
        days_view(r1) == days_view(r2),
{
    let a = day_keys(r1);
    let b = day_keys(r2);
    assert forall|i: int| 0 <= i < a.len() implies b.contains(#[trigger] a[i]) by {
        assert(has_key(r1, r1[i].0));
        assert(as_map(r1).dom().contains(r1[i].0));
        assert(as_map(r2).dom().contains(r1[i].0));
        let j = choose|j: int| 0 <= j < r2.len() && #[trigger] r2[j].0 == r1[i].0;
        assert(b[j] == a[i]);
    }
    assert forall|i: int| 0 <= i < b.len() implies a.contains(#[trigger] b[i]) by {
        assert(has_key(r2, r2[i].0));
        assert(as_map(r2).dom().contains(r2[i].0));
        assert(as_map(r1).dom().contains(r2[i].0));
        let j = choose|j: int| 0 <= j < r1.len() && #[trigger] r1[j].0 == r2[i].0;
        assert(a[j] == b[i]);
    }
    assert forall|i: int, j: int| 0 <= i < j < a.len() implies key_lt(#[trigger] a[i], #[trigger] a[j]) by {
        assert(key_lt(r1[i].0, r1[j].0));
    }
    assert forall|i: int, j: int| 0 <= i < j < b.len() implies key_lt(#[trigger] b[i], #[trigger] b[j]) by {
        assert(key_lt(r2[i].0, r2[j].0));
    }
    lemma_increasing_equal(a, b);
    assert(unique_keys(r1)) by {
        assert forall|i: int, j: int| 0 <= i < j < r1.len() implies #[trigger] r1[i].0 != #[trigger] r1[j].0 by {
            assert(key_lt(r1[i].0, r1[j].0));
        }
    }
    assert(unique_keys(r2)) by {
        assert forall|i: int, j: int| 0 <= i < j < r2.len() implies #[trigger] r2[i].0 != #[trigger] r2[j].0 by {
            assert(key_lt(r2[i].0, r2[j].0));
        }
    }
    assert(r1.len() == a.len() && r2.len() == b.len());
    assert forall|i: int| 0 <= i < r1.len() implies #[trigger] days_view(r1)[i] == days_view(r2)[i] by {
        assert(a[i] == b[i]);
        let k = r1[i].0;
        assert(r2[i].0 == k);
        lemma_unique_key_index(r1, i);
        lemma_unique_key_index(r2, i);
        assert(has_key(r1, k));
        assert(m.contains_key(k));
        assert(as_map(r1)[k] == r1[i].1);
        assert(as_map(r2)[k] == r2[i].1);
    }
    assert(days_view(r1) =~= days_view(r2));
}

/// What the menu holds does not depend on the names or the order of the
/// members of the object that the ordering service sends: two objects with
/// the same days, no two of them of the same date, give the same days in the
/// same order, each with the same dishes in the same order.
pub proof fn law_menu_ignores_member_names_and_order(
    j1: Json,
    j2: Json,
    r1: Seq<(DayKey, DayMenu)>,
    r2: Seq<(DayKey, DayMenu)>,
)
    requires
        menu_ok(j1),
        menu_ok(j2),
        day_arrays(j1.object_of().unwrap()).to_multiset() == day_arrays(j2.object_of().unwrap()).to_multiset(),
        distinct_dates(j1.object_of().unwrap()),
        distinct_dates(j2.object_of().unwrap()),
        strictly_sorted(r1),
        days_match(r1, menu_days(j1.object_of().unwrap())),
        strictly_sorted(r2),
        days_match(r2, menu_days(j2.object_of().unwrap())),
    ensures
        days_view(r1) == days_view(r2),
{
    let m1 = j1.object_of().unwrap();
    let m2 = j2.object_of().unwrap();
    let d1 = day_arrays(m1);
    let d2 = day_arrays(m2);
    d1.to_multiset_ensures();
    d2.to_multiset_ensures();
    assert forall|i: int| 0 <= i < m2.len() implies d1.contains(#[trigger] m2[i].1) by {
        assert(d2[i] == m2[i].1);
        assert(d2.contains(d2[i]));
        assert(d2.to_multiset().count(m2[i].1) > 0);
        assert(d1.to_multiset().count(m2[i].1) > 0);
    }
    assert forall|i: int| 0 <= i < m1.len() implies d2.contains(#[trigger] m1[i].1) by {
        assert(d1[i] == m1[i].1);
        assert(d1.contains(d1[i]));
        assert(d1.to_multiset().count(m1[i].1) > 0);
        assert(d2.to_multiset().count(m1[i].1) > 0);
    }
    lemma_same_days_same_map(m1, m2);
    lemma_sorted_days_equal(r1, r2, menu_days(m1));
}

pub open spec fn no_digits(s: Seq<char>) -> bool {
    forall|i: int| 0 <= i < s.len() ==> !is_digit(#[trigger] s[i])
}

proof fn lemma_drop_digits(s: Seq<char>)
    ensures
        no_digits(drop_digits(s)),
    decreases s.len(),
{
    if s.len() > 0 {
        lemma_drop_digits(s.drop_last());
        let p = drop_digits(s.drop_last());
        if !is_digit(s.last()) {
            assert forall|i: int| 0 <= i < drop_digits(s).len() implies !is_digit(#[trigger] drop_digits(s)[i]) by {
                if i < p.len() {
                    assert(drop_digits(s)[i] == p[i]);
                }
            }
        }
    }
}

proof fn lemma_trim_keeps_no_digits(s: Seq<char>)
    requires
        no_digits(s),
    ensures
        no_digits(trim(s)),
{
    lemma_trim_start_no_digits(s);
    lemma_trim_end_no_digits(trim_start(s));
}

proof fn lemma_trim_start_no_digits(s: Seq<char>)
    requires
        no_digits(s),
    ensures
        no_digits(trim_start(s)),
    decreases s.len(),
{
    if s.len() > 0 && is_ws(s[0]) {
        assert forall|i: int| 0 <= i < s.drop_first().len() implies !is_digit(#[trigger] s.drop_first()[i]) by {
            assert(s.drop_first()[i] == s[i + 1]);
        }
        lemma_trim_start_no_digits(s.drop_first());
    }
}

proof fn lemma_trim_end_no_digits(s: Seq<char>)
    requires
        no_digits(s),
    ensures
        no_digits(trim_end(s)),
    decreases s.len(),
{
    if s.len() > 0 && is_ws(s.last()) {
        assert forall|i: int| 0 <= i < s.drop_last().len() implies !is_digit(#[trigger] s.drop_last()[i]) by {
            assert(s.drop_last()[i] == s[i]);
        }
        lemma_trim_end_no_digits(s.drop_last());
    }
}

pub open spec fn history_entry_ok(e: (Seq<char>, Seq<Seq<char>>)) -> bool {
    &&& e.0.len() > 0
    &&& trim(e.0) == e.0
    &&& forall|a: int| 0 <= a < e.1.len() ==> no_digits(#[trigger] e.1[a]) && trim(e.1[a]) == e.1[a]
}

proof fn lemma_history_allergens(items: Seq<Json>)
    ensures
        forall|a: int| 0 <= a < history_allergens(items).len() ==> no_digits(#[trigger] history_allergens(items)[a])
            && trim(history_allergens(items)[a]) == history_allergens(items)[a],
    decreases items.len(),
{
    if items.len() > 0 {
        let p = items.drop_last();
        lemma_history_allergens(p);
        let h = history_allergens(items);
        let hp = history_allergens(p);
        match history_allergen(items.last()) {
            Some(x) => {
                let pair = items.last().array_of().unwrap();
                let raw = pair[0].str_of().unwrap();
                lemma_drop_digits(raw);
                lemma_trim_keeps_no_digits(drop_digits(raw));
                law_trim(drop_digits(raw));
                assert(h == hp + seq![x]);
            },
            None => {
                assert(h == hp + Seq::<Seq<char>>::empty());
            },
        }
        assert forall|a: int| 0 <= a < h.len() implies no_digits(#[trigger] h[a]) && trim(h[a]) == h[a] by {
            if a < hp.len() {
                assert(h[a] == hp[a]);
            }
        }
    }
}

proof fn lemma_history_dishes(items: Seq<Json>)
    ensures
        forall|i: int| 0 <= i < history_dishes(items).len() ==> history_entry_ok(#[trigger] history_dishes(items)[i]),
    decreases items.len(),
{
    if items.len() > 0 {
        let p = items.drop_last();
        lemma_history_dishes(p);
        let h = history_dishes(items);
        let hp = history_dishes(p);
        match history_dish(items.last()) {
            Some(e) => {
                let d = items.last();
                let a = d.field("alergeny"@).unwrap();
                lemma_history_allergens(a.array_of().unwrap());
                law_trim(d.field("nazev"@).unwrap().str_of().unwrap());
                assert(history_entry_ok(e));
                assert(h == hp + seq![e]);
            },
            None => {
                assert(h == hp + Seq::<(Seq<char>, Seq<Seq<char>>)>::empty());
            },
        }
        assert forall|i: int| 0 <= i < h.len() implies history_entry_ok(#[trigger] h[i]) by {
            if i < hp.len() {
                assert(h[i] == hp[i]);
            }
        }
    }
}

proof fn lemma_history_days(members: Seq<(String, Json)>)
    ensures
        forall|i: int| 0 <= i < history_days(members).len() ==> history_entry_ok(#[trigger] history_days(members)[i]),
    decreases members.len(),
{
    if members.len() > 0 {
        let p = members.drop_last();
        lemma_history_days(p);
        let h = history_days(members);
        let hp = history_days(p);
        let tail = match members.last().1.array_of() {
            Some(items) => history_dishes(items),
            None => Seq::empty(),
        };
        match members.last().1.array_of() {
            Some(items) => {
                lemma_history_dishes(items);
            },
            None => {},
        }
        assert(h == hp + tail);
        assert forall|i: int| 0 <= i < h.len() implies history_entry_ok(#[trigger] h[i]) by {
            if i < hp.len() {
                assert(h[i] == hp[i]);
            } else {
                assert(h[i] == tail[i - hp.len()]);
            }
        }
    }
}

/// Every dish read from a canteen's menu has a name that is not blank and
/// carries no leading or trailing white space, and allergens without digits
/// or leading or trailing white space.
pub proof fn law_history_entries_are_clean(j: Json)
    ensures
        forall|i: int| 0 <= i < history_menu(j).len() ==> history_entry_ok(#[trigger] history_menu(j)[i]),
{
    match j.array_of() {
        Some(items) => {
            if items.len() > 0 {
                match items[0].object_of() {
                    Some(members) => {
                        lemma_history_days(members);
                    },
                    None => {},
                }
            }
        },
        None => {},
    }
}

/// The dish of the menu `api` on day `k` under the name `name` has the id `id`.
pub open spec fn known_dish(api: Seq<(DayKey, DayMenu)>, k: DayKey, name: Seq<char>, id: Seq<char>) -> bool {
    menu_dish(api, k, name) matches Some(info) && info.id == id
}

proof fn lemma_merged_dishes_known(api: Seq<(DayKey, DayMenu)>, k: DayKey, ds: Seq<DishTexts>)
    ensures
        forall|i: int| 0 <= i < merged_dishes(api, k, ds).len() ==> known_dish(api, k, (#[trigger] merged_dishes(api, k, ds)[i]).0, merged_dishes(api, k, ds)[i].1.id),
    decreases ds.len(),
{
    if ds.len() > 0 {
        let p = ds.drop_last();
        lemma_merged_dishes_known(api, k, p);
        let prev = merged_dishes(api, k, p);
        let d = ds.last();
        let name = crate::scrape::scraped_name(d.2);
        match menu_dish(api, k, name) {
            Some(info) => {
                let v = DishView { id: info.id, allergens: crate::scrape::non_empty(d.0), order_state: d.1.len() > 0 };
                lemma_upsert_entries(prev, name, v);
                let m = merged_dishes(api, k, ds);
                assert forall|i: int| 0 <= i < m.len() implies known_dish(api, k, (#[trigger] m[i]).0, m[i].1.id) by {
                    if m[i] != (name, v) {
                        let j = choose|j: int| 0 <= j < prev.len() && prev[j] == m[i];
                        assert(known_dish(api, k, prev[j].0, prev[j].1.id));
                    }
                }
            },
            None => {},
        }
    }
}

/// Every dish of a menu read from the menu page is a dish that the menu of
/// the ordering service lists on the same day under the same name, with the
/// same id.
pub proof fn law_scraped_dishes_are_known(api: Seq<(DayKey, DayMenu)>, days: Seq<DayTexts>)
    ensures
        merged_days(api, days) matches Some(m) ==> forall|i: int, j: int|
            0 <= i < m.len() && 0 <= j < m[i].1.dishes.len() ==> known_dish(api, m[i].0, (#[trigger] m[i].1.dishes[j]).0, m[i].1.dishes[j].1.id),
    decreases days.len(),
{
    if days.len() > 0 {
        let p = days.drop_last();
        law_scraped_dishes_are_known(api, p);
        match (merged_days(api, p), merged_day(api, days.last())) {
            (Some(s), Some(Some((k, v)))) => {
                lemma_merged_dishes_known(api, k, days.last().1);
                lemma_upsert_entries(s, k, v);
                let m = merged_days(api, days).unwrap();
                assert forall|i: int, j: int| 0 <= i < m.len() && 0 <= j < m[i].1.dishes.len() implies known_dish(api, m[i].0, (#[trigger] m[i].1.dishes[j]).0, m[i].1.dishes[j].1.id) by {
                    if m[i] != (k, v) {
                        let x = choose|x: int| 0 <= x < s.len() && s[x] == m[i];
                        assert(s[x].1.dishes[j] == m[i].1.dishes[j]);
                    } else {
                        assert(v.dishes[j] == m[i].1.dishes[j]);
                    }
                }
            },
            _ => {},
        }
    }
}

} // verus!
