use vstd::prelude::*;
use indexmap::IndexMap;
use crate::date::Date;
use vstd::string::*;
use crate::date::{czech_weekday, date_fields, weekday_from_monday};
use crate::entries::{as_map, key_index, lemma_same_entries_map, lemma_upsert, unique_keys, upsert};
use crate::json::{Json, json_text, parse_json};
use crate::text::{trim, trim_str};

verus! {

#[verifier::external_type_specification]
#[verifier::external_body]
#[verifier::reject_recursive_types(K)]
#[verifier::reject_recursive_types(V)]
#[verifier::reject_recursive_types(S)]
pub struct ExIndexMap<K, V, S>(IndexMap<K, V, S>);

/// A dish on a day's menu: its order id, its allergens and whether it is ordered.
#[derive(Clone, Debug)]
pub struct DishInfo {
    pub id: String,
    pub allergens: Vec<String>,
    pub order_state: bool,
}

/// What a `DishInfo` holds, as plain values.
pub struct DishView {
    pub id: Seq<char>,
    pub allergens: Seq<Seq<char>>,
    pub order_state: bool,
}

impl View for DishInfo {
    type V = DishView;

    open spec fn view(&self) -> DishView {
        DishView { id: self.id@, allergens: self.allergens.deep_view(), order_state: self.order_state }
    }
}

/// The dishes of one day, by name, in the order they were first inserted.
pub type Dishes = IndexMap<String, DishInfo>;

/// A day of the menu: its date and its dishes.
#[derive(Debug)]
pub struct DayMenu {
    pub date: Date,
    pub dishes: Dishes,
}

/// The key of a day in a menu: year, month and day.
pub type DayKey = (i32, u32, u32);

/// A menu: days by date key.
pub type Menu = IndexMap<DayKey, DayMenu>;

/// The entries of a dish map, in order: each name with what its dish holds.
pub uninterp spec fn dishes_of(m: Dishes) -> Seq<(Seq<char>, DishView)>;

/// The entries of a menu, in order.
pub uninterp spec fn days_of(m: Menu) -> Seq<(DayKey, DayMenu)>;

/// The lexicographic order of day keys, which is the order of `(i32, u32, u32)`.
pub open spec fn key_lt(a: DayKey, b: DayKey) -> bool {
    ||| a.0 < b.0
    ||| (a.0 == b.0 && a.1 < b.1)
    ||| (a.0 == b.0 && a.1 == b.1 && a.2 < b.2)
}

/// indexmap: `IndexMap::new()`. Claimed: the map holds no entry.
#[verifier::external_body]
pub fn new_dishes() -> (m: Dishes)
    ensures
        dishes_of(m) == Seq::<(Seq<char>, DishView)>::empty(),
{
    IndexMap::new()
}

/// indexmap: `IndexMap::insert`. Claimed, as its documentation says: an
/// entry with an equal key keeps its place and takes the new value; otherwise
/// the entry goes last. `String` keys are equal when their characters are.
#[verifier::external_body]
pub fn insert_dish(m: &mut Dishes, name: String, info: DishInfo)
    ensures
        dishes_of(*final(m)) == upsert(dishes_of(*old(m)), name@, info@),
{
    m.insert(name, info);
}

/// indexmap: `IndexMap::len`. Claimed: the number of entries.
#[verifier::external_body]
pub fn dishes_len(m: &Dishes) -> (n: usize)
    ensures
        n == dishes_of(*m).len(),
{
    m.len()
}

/// indexmap: `IndexMap::get_index`. Claimed: the entry at position `i`.
#[verifier::external_body]
pub fn dish_at(m: &Dishes, i: usize) -> (r: (&String, &DishInfo))
    requires
        i < dishes_of(*m).len(),
    ensures
        r.0@ == dishes_of(*m)[i as int].0,
        r.1@ == dishes_of(*m)[i as int].1,
{
    m.get_index(i).unwrap()
}

/// indexmap: `IndexMap::get`. Claimed: the value of the entry named `name`,
/// if there is one (`String` keys compare by their characters).
#[verifier::external_body]
pub fn dish_get<'a>(m: &'a Dishes, name: &str) -> (r: Option<&'a DishInfo>)
    ensures
        r is Some <==> key_index(dishes_of(*m), name@) is Some,
        r matches Some(v) ==> v@ == dishes_of(*m)[key_index(dishes_of(*m), name@).unwrap()].1,
{
    m.get(name)
}

/// indexmap: `IndexMap::new()`. Claimed: the map holds no entry.
#[verifier::external_body]
pub fn new_menu() -> (m: Menu)
    ensures
        days_of(m) == Seq::<(DayKey, DayMenu)>::empty(),
{
    IndexMap::new()
}

/// indexmap: `IndexMap::insert`. Claimed, as its documentation says: an
/// entry with an equal key keeps its place and takes the new value; otherwise
/// the entry goes last. Tuples of integers are equal when their fields are.
#[verifier::external_body]
pub fn insert_day(m: &mut Menu, key: DayKey, day: DayMenu)
    ensures
        days_of(*final(m)) == upsert(days_of(*old(m)), key, day),
{
    m.insert(key, day);
}

/// indexmap: `IndexMap::len`. Claimed: the number of entries.
#[verifier::external_body]
pub fn days_len(m: &Menu) -> (n: usize)
    ensures
        n == days_of(*m).len(),
{
    m.len()
}

/// indexmap: `IndexMap::get_index`. Claimed: the entry at position `i`.
#[verifier::external_body]
pub fn day_at(m: &Menu, i: usize) -> (r: (&DayKey, &DayMenu))
    requires
        i < days_of(*m).len(),
    ensures
        *r.0 == days_of(*m)[i as int].0,
        *r.1 == days_of(*m)[i as int].1,
{
    m.get_index(i).unwrap()
}

/// indexmap: `IndexMap::get`. Claimed: the value of the entry with key
/// `key`, if there is one.
#[verifier::external_body]
pub fn day_get<'a>(m: &'a Menu, key: &DayKey) -> (r: Option<&'a DayMenu>)
    ensures
        r is Some <==> key_index(days_of(*m), *key) is Some,
        r matches Some(d) ==> *d == days_of(*m)[key_index(days_of(*m), *key).unwrap()].1,
{
    m.get(key)
}

/// indexmap: `IndexMap::sort_keys`. Claimed: the same entries, as many as
/// before, now ordered by key (the order of tuples: field by field); the keys
/// of an index map never repeat.
#[verifier::external_body]
pub fn sort_days(m: &mut Menu)
    ensures
        days_of(*final(m)).len() == days_of(*old(m)).len(),
        forall|i: int| 0 <= i < days_of(*old(m)).len() ==> days_of(*final(m)).contains(#[trigger] days_of(*old(m))[i]),
        forall|i: int| 0 <= i < days_of(*final(m)).len() ==> days_of(*old(m)).contains(#[trigger] days_of(*final(m))[i]),
        forall|i: int, j: int| 0 <= i < j < days_of(*final(m)).len() ==> !key_lt(#[trigger] days_of(*final(m))[j].0, #[trigger] days_of(*final(m))[i].0),
        unique_keys(days_of(*final(m))),
{
    m.sort_keys();
}


/// A dish object of the menu as the ordering service sends it: `popis` and
/// `nazev` strings, `alergeny` a list of lists that each start with a
/// string, a whole number `pocet` and a string `veta`.
pub open spec fn dish_ok(d: Json) -> bool {
    &&& d.field("popis"@) matches Some(p) && p.str_of() is Some
    &&& d.field("nazev"@) matches Some(n) && n.str_of() is Some
    &&& d.field("pocet"@) matches Some(c) && c.i64_of() is Some
    &&& d.field("veta"@) matches Some(v) && v.str_of() is Some
    &&& allergens_ok(d)
}

/// `alergeny` is a list of allergens.
pub open spec fn allergens_ok(d: Json) -> bool {
    match d.field("alergeny"@) {
        Some(a) => match a.array_of() {
            Some(items) => forall|i: int| 0 <= i < items.len() ==> allergen_ok(#[trigger] items[i]),
            None => false,
        },
        None => false,
    }
}

/// An allergen of a dish: a list whose first item is a string.
pub open spec fn allergen_ok(a: Json) -> bool {
    a.array_of() matches Some(pair) && pair.len() > 0 && pair[0].str_of() is Some
}

/// The name under which a dish is listed: `popis - nazev`, each trimmed, and
/// the whole trimmed again.
pub open spec fn dish_name(d: Json) -> Seq<char> {
    trim(trim(d.field("popis"@).unwrap().str_of().unwrap()) + " - "@ + trim(
        d.field("nazev"@).unwrap().str_of().unwrap(),
    ))
}

/// The first string of each list under `alergeny`.
pub open spec fn dish_allergens(d: Json) -> Seq<Seq<char>> {
    let items = d.field("alergeny"@).unwrap().array_of().unwrap();
    Seq::new(items.len(), |i: int| items[i].array_of().unwrap()[0].str_of().unwrap())
}

/// What the menu records of a dish: its id `veta`, its allergens, and whether
/// `pocet` is 1.
pub open spec fn dish_view(d: Json) -> DishView {
    DishView {
        id: d.field("veta"@).unwrap().str_of().unwrap(),
        allergens: dish_allergens(d),
        order_state: d.field("pocet"@).unwrap().i64_of().unwrap() == 1,
    }
}

/// The text of the date of a day: `datum` of its first dish.
pub open spec fn day_date_text(items: Seq<Json>) -> Seq<char> {
    items[0].field("datum"@).unwrap().str_of().unwrap()
}

/// A day of the menu: at least one dish, every dish well formed, and the first
/// one holding a `datum` that names a date.
pub open spec fn day_ok(items: Seq<Json>) -> bool {
    &&& items.len() > 0
    &&& forall|i: int| 0 <= i < items.len() ==> dish_ok(#[trigger] items[i])
    &&& items[0].field("datum"@) matches Some(t) && t.str_of() matches Some(txt) && date_fields(
        txt,
    ) is Some
}

/// A menu as the ordering service sends it: an object whose every member is a
/// well-formed day.
pub open spec fn menu_ok(j: Json) -> bool {
    match j.object_of() {
        Some(members) => forall|i: int| 0 <= i < members.len() ==> member_ok(#[trigger] members[i]),
        None => false,
    }
}

pub open spec fn member_ok(m: (String, Json)) -> bool {
    m.1.array_of() matches Some(items) && day_ok(items)
}

/// The dishes of a day, inserted one after the other by name.
pub open spec fn day_dishes(items: Seq<Json>) -> Seq<(Seq<char>, DishView)>
    decreases items.len(),
{
    if items.len() == 0 {
        Seq::empty()
    } else {
        upsert(day_dishes(items.drop_last()), dish_name(items.last()), dish_view(items.last()))
    }
}

/// What a day of the menu holds, as plain values.
pub struct DayView {
    pub day_of_week: Seq<char>,
    pub dishes: Seq<(Seq<char>, DishView)>,
}

pub open spec fn day_view(d: DayMenu) -> DayView {
    DayView { day_of_week: d.date.day_of_week@, dishes: dishes_of(d.dishes) }
}

/// The day that a member of the menu object gives: its key and what it holds.
pub open spec fn member_key(items: Seq<Json>) -> DayKey {
    date_fields(day_date_text(items)).unwrap()
}

pub open spec fn member_day(items: Seq<Json>) -> DayView {
    let k = member_key(items);
    DayView { day_of_week: czech_weekday(weekday_from_monday(k.0, k.1, k.2)), dishes: day_dishes(items) }
}

/// The days of a menu object, inserted one after the other by date, a later
/// day replacing an earlier one of the same date.
pub open spec fn menu_days(members: Seq<(String, Json)>) -> Map<DayKey, DayView>
    decreases members.len(),
{
    if members.len() == 0 {
        Map::empty()
    } else {
        let items = members.last().1.array_of().unwrap();
        menu_days(members.drop_last()).insert(member_key(items), member_day(items))
    }
}

/// The days of `days`, seen by key, are those of `expected`.
pub open spec fn days_match(days: Seq<(DayKey, DayMenu)>, expected: Map<DayKey, DayView>) -> bool {
    &&& as_map(days).dom() == expected.dom()
    &&& forall|k: DayKey| #[trigger] expected.contains_key(k) ==> day_view(as_map(days)[k]) == expected[k]
}

/// Every day is stored under the key of its own date.
pub open spec fn dates_at_keys(days: Seq<(DayKey, DayMenu)>) -> bool {
    forall|i: int| 0 <= i < days.len() ==> (#[trigger] days[i]).1.date.key() == days[i].0
}

pub open spec fn strictly_sorted(days: Seq<(DayKey, DayMenu)>) -> bool {
    forall|i: int, j: int| 0 <= i < j < days.len() ==> key_lt(#[trigger] days[i].0, #[trigger] days[j].0)
}

/// The entry of a dish of the menu: its name and what it holds.
fn dish_entry(d: &Json) -> (r: (String, DishInfo))
    requires
        dish_ok(*d),
    ensures
        r.0@ == dish_name(*d),
        r.1@ == dish_view(*d),
{
    let popis = d.get("popis").unwrap().as_str().unwrap();
    let nazev = d.get("nazev").unwrap().as_str().unwrap();
    let mut name = trim_str(popis.as_str());
    name.append(" - ");
    let nazev_trimmed = trim_str(nazev.as_str());
    name.append(nazev_trimmed.as_str());
    let name = trim_str(name.as_str());
    let alergeny_json = d.get("alergeny").unwrap();
    let alergeny = alergeny_json.as_array().unwrap();
    let ghost items = alergeny@;
    proof {
        // the list under `alergeny` is the one that `allergens_ok` speaks of
        let listed = d.field("alergeny"@).unwrap();
        assert(listed == *alergeny_json);
        assert(listed.array_of().unwrap() == items);
        assert(forall|i: int| 0 <= i < listed.array_of().unwrap().len() ==> allergen_ok(#[trigger] listed.array_of().unwrap()[i]));
    }
    let mut allergens: Vec<String> = Vec::new();
    let mut i: usize = 0;
    while i < alergeny.len()
        invariant
            items == alergeny@,
            forall|k: int| 0 <= k < items.len() ==> allergen_ok(#[trigger] items[k]),
            i <= items.len(),
            allergens.deep_view() =~= Seq::new(i as nat, |k: int| items[k].array_of().unwrap()[0].str_of().unwrap()),
        decreases items.len() - i,
    {
        let pair = alergeny[i].as_array().unwrap();
        let first = pair[0].as_str().unwrap();
        let ghost old_allergens = allergens@;
        let ghost old_dv = allergens.deep_view();
        allergens.push(first.clone());
        proof {
            assert(items[i as int].array_of() == Some(pair@));
            assert(pair@[0].str_of() == Some(first@));
            assert(allergens@ == old_allergens.push(*first));
            assert(old_dv.len() == i);
            assert(old_allergens.len() == old_dv.len());
            let target = Seq::new((i + 1) as nat, |k: int| items[k].array_of().unwrap()[0].str_of().unwrap());
            assert forall|k: int| 0 <= k < i + 1 implies allergens.deep_view()[k] == target[k] by {
                if k < i {
                    assert(allergens@[k] == old_allergens[k]);
                    assert(old_dv[k] == old_allergens[k]@);
                }
            }
            assert(allergens.deep_view() =~= target);
        }
        i = i + 1;
    }
    let count = d.get("pocet").unwrap().as_i64().unwrap();
    let id = d.get("veta").unwrap().as_str().unwrap().clone();
    let info = DishInfo { id, allergens, order_state: count == 1 };
    (name, info)
}

/// The dishes of a day, inserted one after the other by name.
fn parse_day(items: &Vec<Json>) -> (r: Dishes)
    requires
        forall|i: int| 0 <= i < items@.len() ==> dish_ok(#[trigger] items@[i]),
    ensures
        dishes_of(r) == day_dishes(items@),
{
    let mut daily = new_dishes();
    let mut i: usize = 0;
    while i < items.len()
        invariant
            forall|k: int| 0 <= k < items@.len() ==> dish_ok(#[trigger] items@[k]),
            i <= items@.len(),
            dishes_of(daily) == day_dishes(items@.take(i as int)),
        decreases items@.len() - i,
    {
        let (name, info) = dish_entry(&items[i]);
        insert_dish(&mut daily, name, info);
        proof {
            assert(items@.take(i + 1).drop_last() =~= items@.take(i as int));
            assert(items@.take(i + 1).last() == items@[i as int]);
        }
        i = i + 1;
    }
    assert(items@.take(items@.len() as int) =~= items@);
    daily
}

/// Reads the menu that the ordering service sends: for each day its date and
/// its dishes by name; the days sorted by date.
pub fn parse_menu(menu_string: Json) -> (menu: Menu)
    requires
        menu_ok(menu_string),
    ensures
        strictly_sorted(days_of(menu)),
        dates_at_keys(days_of(menu)),
        days_match(days_of(menu), menu_days(menu_string.object_of().unwrap())),
{
    let members = menu_string.as_object().unwrap();
    let ghost ms = members@;
    proof {
        let listed = menu_string.object_of().unwrap();
        assert(listed == ms);
        assert(forall|k: int| 0 <= k < listed.len() ==> member_ok(#[trigger] listed[k]));
    }
    let mut menu = new_menu();
    let mut i: usize = 0;
    proof {
        assert(as_map(days_of(menu)) =~= Map::<DayKey, DayMenu>::empty());
        assert(menu_days(ms.take(0)) =~= Map::<DayKey, DayView>::empty());
    }
    while i < members.len()
        invariant
            ms == members@,
            forall|k: int| 0 <= k < ms.len() ==> member_ok(#[trigger] ms[k]),
            i <= ms.len(),
            unique_keys(days_of(menu)),
            dates_at_keys(days_of(menu)),
            days_match(days_of(menu), menu_days(ms.take(i as int))),
        decreases ms.len() - i,
    {
        let items = members[i].1.as_array().unwrap();
        let ghost its = items@;
        let dishes = parse_day(items);
        let datum = items[0].get("datum").unwrap().as_str().unwrap().clone();
        let date = Date::new(datum);
        let key = (date.year, date.month, date.day);
        let ghost old_days = days_of(menu);
        let day = DayMenu { date, dishes };
        proof {
            lemma_upsert(old_days, key, day);
        }
        insert_day(&mut menu, key, day);
        proof {
            let nd = days_of(menu);
            assert(ms.take(i + 1).drop_last() =~= ms.take(i as int));
            assert(ms.take(i + 1).last() == ms[i as int]);
            assert(key == member_key(its));
            assert(day_view(day) == member_day(its));
            assert(dates_at_keys(nd)) by {
                crate::entries::lemma_key_index(old_days, key);
                assert forall|j: int| 0 <= j < nd.len() implies (#[trigger] nd[j]).1.date.key() == nd[j].0 by {
                    match crate::entries::key_index(old_days, key) {
                        Some(idx) => {
                            if j != idx {
                                assert(nd[j] == old_days[j]);
                            }
                        },
                        None => {
                            if j < old_days.len() {
                                assert(nd[j] == old_days[j]);
                            }
                        },
                    }
                }
            }
            let expected = menu_days(ms.take(i + 1));
            assert(as_map(nd).dom() =~= expected.dom());
        }
        i = i + 1;
    }
    proof {
        assert(ms.take(ms.len() as int) =~= ms);
    }
    let ghost before = days_of(menu);
    sort_days(&mut menu);
    proof {
        let after = days_of(menu);
        lemma_same_entries_map(before, after);
        assert(dates_at_keys(after)) by {
            assert forall|j: int| 0 <= j < after.len() implies (#[trigger] after[j]).1.date.key() == after[j].0 by {
                assert(before.contains(after[j]));
            }
        }
        assert(strictly_sorted(after)) by {
            assert forall|a: int, b: int| 0 <= a < b < after.len() implies key_lt(#[trigger] after[a].0, #[trigger] after[b].0) by {
                assert(after[a].0 != after[b].0);
            }
        }
    }
    menu
}


fn has_str_field(d: &Json, key: &str) -> (r: bool)
    ensures
        r == (d.field(key@) matches Some(v) && v.str_of() is Some),
{
    match d.get(key) {
        Some(v) => v.as_str().is_some(),
        None => false,
    }
}

fn check_dish(d: &Json) -> (r: bool)
    ensures
        r == dish_ok(*d),
{
    if !has_str_field(d, "popis") || !has_str_field(d, "nazev") || !has_str_field(d, "veta") {
        return false;
    }
    match d.get("pocet") {
        Some(c) => {
            if c.as_i64().is_none() {
                return false;
            }
        },
        None => {
            return false;
        },
    }
    let a = match d.get("alergeny") {
        Some(a) => a,
        None => {
            return false;
        },
    };
    let items = match a.as_array() {
        Some(items) => items,
        None => {
            return false;
        },
    };
    let mut i: usize = 0;
    while i < items.len()
        invariant
            i <= items@.len(),
            d.field("alergeny"@) == Some(*a),
            a.array_of() == Some(items@),
            forall|k: int| 0 <= k < i ==> allergen_ok(#[trigger] items@[k]),
        decreases items@.len() - i,
    {
        let ok = match items[i].as_array() {
            Some(pair) => pair.len() > 0 && pair[0].as_str().is_some(),
            None => false,
        };
        if !ok {
            proof {
                assert(!allergen_ok(items@[i as int]));
                let listed = d.field("alergeny"@).unwrap();
                assert(listed.array_of().unwrap() == items@);
                assert(!allergens_ok(*d));
            }
            return false;
        }
        i = i + 1;
    }
    true
}

fn check_day(items: &Vec<Json>) -> (r: bool)
    ensures
        r == day_ok(items@),
{
    if items.len() == 0 {
        return false;
    }
    let mut i: usize = 0;
    while i < items.len()
        invariant
            i <= items@.len(),
            forall|k: int| 0 <= k < i ==> dish_ok(#[trigger] items@[k]),
        decreases items@.len() - i,
    {
        if !check_dish(&items[i]) {
            return false;
        }
        i = i + 1;
    }
    match items[0].get("datum") {
        Some(t) => match t.as_str() {
            Some(txt) => Date::parse(txt.as_str()).is_some(),
            None => false,
        },
        None => false,
    }
}

/// Whether `menu` is a menu as the ordering service sends it.
pub fn check_menu(menu: &Json) -> (r: bool)
    ensures
        r == menu_ok(*menu),
{
    let members = match menu.as_object() {
        Some(m) => m,
        None => {
            return false;
        },
    };
    let mut i: usize = 0;
    while i < members.len()
        invariant
            i <= members@.len(),
            menu.object_of() == Some(members@),
            forall|k: int| 0 <= k < i ==> member_ok(#[trigger] members@[k]),
        decreases members@.len() - i,
    {
        let ok = match members[i].1.as_array() {
            Some(items) => check_day(items),
            None => false,
        };
        if !ok {
            proof {
                assert(!member_ok(members@[i as int]));
                let listed = menu.object_of().unwrap();
                assert(listed == members@);
            }
            return false;
        }
        i = i + 1;
    }
    true
}

/// Reads the menu that the ordering service sends, or `None` where it is not
/// a well-formed menu.
pub fn try_parse_menu(menu_json: Json) -> (r: Option<Menu>)
    ensures
        r is Some <==> menu_ok(menu_json),
        r matches Some(menu) ==> {
            &&& strictly_sorted(days_of(menu))
            &&& dates_at_keys(days_of(menu))
            &&& days_match(days_of(menu), menu_days(menu_json.object_of().unwrap()))
        },
{
    if check_menu(&menu_json) {
        Some(parse_menu(menu_json))
    } else {
        None
    }
}

/// Reads the menu that the ordering service sends from the reply's JSON text,
/// or `None` where the text is no JSON or no well-formed menu.
pub fn menu_from_text(text: &str) -> (r: Option<Menu>)
    ensures
        r is Some <==> (json_text(text@) matches Some(j) && menu_ok(j)),
        r matches Some(menu) ==> {
            &&& strictly_sorted(days_of(menu))
            &&& dates_at_keys(days_of(menu))
            &&& days_match(days_of(menu), menu_days(json_text(text@).unwrap().object_of().unwrap()))
        },
{
    match parse_json(text) {
        Some(j) => try_parse_menu(j),
        None => None,
    }
}

} // verus!
