use vstd::prelude::*;
use vstd::string::*;
use crate::json::{Json, json_text, parse_json};
use crate::settings::DishDBEntry;
use crate::text::{chars_of, is_digit, push_char, trim, trim_str};

verus! {

/// A canteen: its number and its name with the town and street.
#[derive(Clone, Debug)]
pub struct Cantine {
    pub id: String,
    pub name: String,
}

/// A canteen as the list of canteens gives it: lists of names, towns, streets
/// and numbers, of which the first of each counts.
#[derive(Clone, Debug)]
pub struct CantineData {
    pub v_mesto: Vec<String>,
    pub v_ulice: Vec<String>,
    pub v_nazev: Vec<String>,
    pub zarizeni: Vec<String>,
}

/// `s` without its decimal digits.
pub open spec fn drop_digits(s: Seq<char>) -> Seq<char>
    decreases s.len(),
{
    if s.len() == 0 {
        s
    } else if is_digit(s.last()) {
        drop_digits(s.drop_last())
    } else {
        drop_digits(s.drop_last()).push(s.last())
    }
}

/// `s` without its decimal digits.
pub fn filter_digits(s: &str) -> (r: String)
    ensures
        r@ == drop_digits(s@),
{
    let v = chars_of(s);
    let mut r = String::new();
    let mut i: usize = 0;
    assert(v@.take(0) =~= Seq::<char>::empty());
    while i < v.len()
        invariant
            v@ == s@,
            i <= v@.len(),
            r@ == drop_digits(v@.take(i as int)),
        decreases v@.len() - i,
    {
        let c = v[i];
        if !('0' <= c && c <= '9') {
            push_char(&mut r, c);
        }
        proof {
            assert(v@.take(i + 1).drop_last() =~= v@.take(i as int));
            assert(v@.take(i + 1).last() == c);
        }
        i = i + 1;
    }
    assert(v@.take(v@.len() as int) =~= v@);
    r
}

/// `s` without leading and trailing white space.
pub fn trim_whitespace(s: &str) -> (r: String)
    ensures
        r@ == trim(s@),
{
    trim_str(s)
}

/// The allergen that an item of `alergeny` names: the first string of the
/// list, without digits, trimmed.
pub open spec fn history_allergen(a: Json) -> Option<Seq<char>> {
    match a.array_of() {
        Some(pair) => if pair.len() > 0 && pair[0].str_of() is Some {
            Some(trim(drop_digits(pair[0].str_of().unwrap())))
        } else {
            None
        },
        None => None,
    }
}

/// The allergens of the items, skipping those that name none.
pub open spec fn history_allergens(items: Seq<Json>) -> Seq<Seq<char>>
    decreases items.len(),
{
    if items.len() == 0 {
        Seq::empty()
    } else {
        history_allergens(items.drop_last()) + match history_allergen(items.last()) {
            Some(a) => seq![a],
            None => Seq::empty(),
        }
    }
}

/// The entry of a dish of a canteen's menu: its trimmed `nazev` and the
/// allergens under `alergeny`; none where either is missing or the name is
/// blank.
pub open spec fn history_dish(d: Json) -> Option<(Seq<char>, Seq<Seq<char>>)> {
    match d.field("alergeny"@) {
        Some(a) => match a.array_of() {
            Some(items) => match d.field("nazev"@) {
                Some(n) => match n.str_of() {
                    Some(name) => if trim(name).len() == 0 {
                        None
                    } else {
                        Some((trim(name), history_allergens(items)))
                    },
                    None => None,
                },
                None => None,
            },
            None => None,
        },
        None => None,
    }
}

pub open spec fn history_dishes(items: Seq<Json>) -> Seq<(Seq<char>, Seq<Seq<char>>)>
    decreases items.len(),
{
    if items.len() == 0 {
        Seq::empty()
    } else {
        history_dishes(items.drop_last()) + match history_dish(items.last()) {
            Some(d) => seq![d],
            None => Seq::empty(),
        }
    }
}

/// The dishes of each day in turn, skipping days that are no list.
pub open spec fn history_days(members: Seq<(String, Json)>) -> Seq<(Seq<char>, Seq<Seq<char>>)>
    decreases members.len(),
{
    if members.len() == 0 {
        Seq::empty()
    } else {
        history_days(members.drop_last()) + match members.last().1.array_of() {
            Some(items) => history_dishes(items),
            None => Seq::empty(),
        }
    }
}

/// The dishes of a canteen's menu: the days of the first item of the list
/// that the service sends; nothing where that is missing.
pub open spec fn history_menu(j: Json) -> Seq<(Seq<char>, Seq<Seq<char>>)> {
    match j.array_of() {
        Some(items) => if items.len() > 0 {
            match items[0].object_of() {
                Some(members) => history_days(members),
                None => Seq::empty(),
            }
        } else {
            Seq::empty()
        },
        None => Seq::empty(),
    }
}

pub open spec fn entries_view(v: Seq<DishDBEntry>) -> Seq<(Seq<char>, Seq<Seq<char>>)> {
    Seq::new(v.len(), |i: int| v[i]@)
}

fn read_allergens(items: &Vec<Json>) -> (r: Vec<String>)
    ensures
        r.deep_view() == history_allergens(items@),
{
    let mut r: Vec<String> = Vec::new();
    let mut i: usize = 0;
    assert(items@.take(0) =~= Seq::<Json>::empty());
    assert(r.deep_view() =~= history_allergens(items@.take(0)));
    while i < items.len()
        invariant
            i <= items@.len(),
            r.deep_view() == history_allergens(items@.take(i as int)),
        decreases items@.len() - i,
    {
        let ghost before = r.deep_view();
        let ghost item = items@[i as int];
        match items[i].as_array() {
            Some(pair) => {
                if pair.len() > 0 {
                    match pair[0].as_str() {
                        Some(text) => {
                            let cleaned = filter_digits(text.as_str());
                            let a = trim_whitespace(cleaned.as_str());
                            r.push(a);
                        },
                        None => {},
                    }
                }
            },
            None => {},
        }
        proof {
            let t = items@.take(i + 1);
            assert(t.drop_last() =~= items@.take(i as int));
            assert(t.last() == item);
            let tail = match history_allergen(item) {
                Some(a) => seq![a],
                None => Seq::<Seq<char>>::empty(),
            };
            assert(history_allergens(t) == history_allergens(t.drop_last()) + tail);
            assert(r.deep_view() =~= before + tail);
        }
        i = i + 1;
    }
    assert(items@.take(items@.len() as int) =~= items@);
    r
}

fn read_dish(d: &Json) -> (r: Option<DishDBEntry>)
    ensures
        r matches Some(e) ==> history_dish(*d) == Some(e@),
        r is None ==> history_dish(*d) is None,
{
    let a = match d.get("alergeny") {
        Some(a) => a,
        None => {
            return None;
        },
    };
    let items = match a.as_array() {
        Some(items) => items,
        None => {
            return None;
        },
    };
    let allergens = read_allergens(items);
    let n = match d.get("nazev") {
        Some(n) => n,
        None => {
            return None;
        },
    };
    let text = match n.as_str() {
        Some(t) => t,
        None => {
            return None;
        },
    };
    let name = trim_whitespace(text.as_str());
    if name.unicode_len() == 0 {
        return None;
    }
    Some(DishDBEntry { name, allergens })
}

fn read_day(items: &Vec<Json>, out: &mut Vec<DishDBEntry>)
    ensures
        entries_view(final(out)@) == entries_view(old(out)@) + history_dishes(items@),
{
    let ghost start = entries_view(out@);
    let mut i: usize = 0;
    assert(items@.take(0) =~= Seq::<Json>::empty());
    assert(entries_view(out@) =~= start + history_dishes(items@.take(0)));
    while i < items.len()
        invariant
            i <= items@.len(),
            entries_view(out@) == start + history_dishes(items@.take(i as int)),
        decreases items@.len() - i,
    {
        let ghost before = entries_view(out@);
        let ghost item = items@[i as int];
        match read_dish(&items[i]) {
            Some(e) => {
                out.push(e);
            },
            None => {},
        }
        proof {
            let t = items@.take(i + 1);
            assert(t.drop_last() =~= items@.take(i as int));
            assert(t.last() == item);
            let tail = match history_dish(item) {
                Some(d) => seq![d],
                None => Seq::<(Seq<char>, Seq<Seq<char>>)>::empty(),
            };
            assert(history_dishes(t) == history_dishes(t.drop_last()) + tail);
            assert(entries_view(out@) =~= before + tail);
        }
        i = i + 1;
    }
    assert(items@.take(items@.len() as int) =~= items@);
}

/// Reads a canteen's menu as the ordering service sends it: every dish with a
/// name, and its allergens; what does not have the expected shape is skipped.
pub fn parse_cantine_menu(cantine_menu: Json) -> (menu: Vec<DishDBEntry>)
    ensures
        entries_view(menu@) == history_menu(cantine_menu),
{
    let mut menu: Vec<DishDBEntry> = Vec::new();
    let first = match cantine_menu.as_array() {
        None => {
            assert(entries_view(menu@) =~= Seq::<(Seq<char>, Seq<Seq<char>>)>::empty());
            return menu;
        },
        Some(items) => {
            if items.len() == 0 {
                assert(entries_view(menu@) =~= Seq::<(Seq<char>, Seq<Seq<char>>)>::empty());
                return menu;
            }
            &items[0]
        },
    };
    let members = match first.as_object() {
        Some(m) => m,
        None => {
            assert(entries_view(menu@) =~= Seq::<(Seq<char>, Seq<Seq<char>>)>::empty());
            return menu;
        },
    };
    let ghost ms = members@;
    let mut i: usize = 0;
    assert(ms.take(0) =~= Seq::<(String, Json)>::empty());
    assert(entries_view(menu@) =~= history_days(ms.take(0)));
    while i < members.len()
        invariant
            ms == members@,
            i <= ms.len(),
            entries_view(menu@) == history_days(ms.take(i as int)),
        decreases ms.len() - i,
    {
        let ghost before = entries_view(menu@);
        match members[i].1.as_array() {
            Some(items) => {
                read_day(items, &mut menu);
            },
            None => {},
        }
        proof {
            let t = ms.take(i + 1);
            assert(t.drop_last() =~= ms.take(i as int));
            assert(t.last() == ms[i as int]);
            let tail = match ms[i as int].1.array_of() {
                Some(items) => history_dishes(items),
                None => Seq::empty(),
            };
            assert(history_days(t) == history_days(t.drop_last()) + tail);
            assert(entries_view(menu@) =~= before + tail);
        }
        i = i + 1;
    }
    assert(ms.take(ms.len() as int) =~= ms);
    menu
}

/// The canteen that an entry of the list of canteens describes: its first
/// number, trimmed, and `name, town, street` trimmed; none where the name is
/// missing or empty, or the town or the street is missing.
pub open spec fn cantine_of(c: CantineData) -> Option<(Seq<char>, Seq<char>)> {
    if c.v_nazev@.len() > 0 && c.v_nazev@[0]@.len() > 0 && c.v_mesto@.len() > 0 && c.v_ulice@.len() > 0 {
        Some((
            trim(c.zarizeni@[0]@),
            trim(c.v_nazev@[0]@ + ", "@ + c.v_mesto@[0]@ + ", "@ + c.v_ulice@[0]@),
        ))
    } else {
        None
    }
}

pub open spec fn cantines_of(data: Seq<CantineData>) -> Seq<(Seq<char>, Seq<char>)>
    decreases data.len(),
{
    if data.len() == 0 {
        Seq::empty()
    } else {
        cantines_of(data.drop_last()) + match cantine_of(data.last()) {
            Some(c) => seq![c],
            None => Seq::empty(),
        }
    }
}

pub open spec fn cantines_view(v: Seq<Cantine>) -> Seq<(Seq<char>, Seq<char>)> {
    Seq::new(v.len(), |i: int| (v[i].id@, v[i].name@))
}

/// The canteens of the list of canteens, in order, skipping entries without a
/// name, town or street. Every entry carries a number.
pub fn cantines_from_data(data: Vec<CantineData>) -> (r: Vec<Cantine>)
    requires
        forall|i: int| 0 <= i < data@.len() ==> (#[trigger] data@[i]).zarizeni@.len() > 0,
    ensures
        cantines_view(r@) == cantines_of(data@),
{
    let mut r: Vec<Cantine> = Vec::new();
    let mut i: usize = 0;
    assert(data@.take(0) =~= Seq::<CantineData>::empty());
    assert(cantines_view(r@) =~= cantines_of(data@.take(0)));
    while i < data.len()
        invariant
            forall|k: int| 0 <= k < data@.len() ==> (#[trigger] data@[k]).zarizeni@.len() > 0,
            i <= data@.len(),
            cantines_view(r@) == cantines_of(data@.take(i as int)),
        decreases data@.len() - i,
    {
        let ghost before = cantines_view(r@);
        let c = &data[i];
        let id = trim_whitespace(c.zarizeni[0].as_str());
        if c.v_nazev.len() > 0 && c.v_nazev[0].unicode_len() > 0 && c.v_mesto.len() > 0
            && c.v_ulice.len() > 0 {
            let mut full = c.v_nazev[0].clone();
            full.append(", ");
            full.append(c.v_mesto[0].as_str());
            full.append(", ");
            full.append(c.v_ulice[0].as_str());
            let name = trim_whitespace(full.as_str());
            r.push(Cantine { id, name });
        }
        proof {
            let t = data@.take(i + 1);
            assert(t.drop_last() =~= data@.take(i as int));
            assert(t.last() == data@[i as int]);
            let tail = match cantine_of(data@[i as int]) {
                Some(c) => seq![c],
                None => Seq::empty(),
            };
            assert(cantines_of(t) == cantines_of(t.drop_last()) + tail);
            assert(cantines_view(r@) =~= before + tail);
        }
        i = i + 1;
    }
    assert(data@.take(data@.len() as int) =~= data@);
    r
}

/// Reads a canteen's menu from the reply's JSON text; the error that the text
/// cannot be read where it is no JSON.
pub fn cantine_menu_from_text(text: &str) -> (r: Result<Vec<DishDBEntry>, String>)
    ensures
        json_text(text@) is None <==> r is Err,
        r matches Err(e) ==> e@ == "Failed to parse cantine menu"@,
        r matches Ok(menu) ==> entries_view(menu@) == history_menu(json_text(text@).unwrap()),
{
    match parse_json(text) {
        Some(j) => Ok(parse_cantine_menu(j)),
        None => Err(String::from_str("Failed to parse cantine menu")),
    }
}

} // verus!
