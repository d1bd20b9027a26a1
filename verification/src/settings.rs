use vstd::prelude::*;
use vstd::string::*;
use crate::menu::{DishView, Dishes, Menu, days_of, dishes_of, days_len, day_at, dishes_len, dish_at};
use crate::text::{chars_of, pieces, split, split_ranges, str_eq, string_of, trim, trim_str};

verus! {

/// A dish as the settings and the dish history record it: its name and its allergens.
#[derive(Clone, Debug)]
pub struct DishDBEntry {
    pub name: String,
    pub allergens: Vec<String>,
}

impl View for DishDBEntry {
    type V = (Seq<char>, Seq<Seq<char>>);

    open spec fn view(&self) -> (Seq<char>, Seq<Seq<char>>) {
        (self.name@, self.allergens.deep_view())
    }
}

impl PartialEq for DishDBEntry {
    fn eq(&self, other: &Self) -> (r: bool) {
        str_eq(self.name.as_str(), other.name.as_str()) && strings_eq(&self.allergens, &other.allergens)
    }
}

impl vstd::std_specs::cmp::PartialEqSpecImpl for DishDBEntry {
    open spec fn obeys_eq_spec() -> bool {
        true
    }

    open spec fn eq_spec(&self, other: &Self) -> bool {
        self@ == other@
    }
}

/// How a user wants ordered dishes to be cancelled or replaced.
#[derive(Clone, Debug)]
pub struct OrdersCancelingSettings {
    pub blacklisted_dishes: Vec<DishDBEntry>,
    pub whitelisted_dishes: Vec<DishDBEntry>,
    pub blacklisted_allergens: Vec<String>,
    pub strategy: String,
}

/// One item of the settings, as a request to change them carries it.
#[derive(Clone, Debug)]
pub enum SettingsData {
    Dish(DishDBEntry),
    Allergen(String),
    Strategy(String),
}

/// An order to send: the dish, and how many portions (0 cancels it).
#[derive(Clone, Debug)]
pub struct OrderAction {
    pub dish_id: String,
    pub amount: u8,
}

impl View for OrderAction {
    type V = (Seq<char>, u8);

    open spec fn view(&self) -> (Seq<char>, u8) {
        (self.dish_id@, self.amount)
    }
}

/// What a run of the automatic canceling does: nothing at all, or the orders
/// to send, after which the orders are saved.
pub enum OrderPlan {
    Disabled,
    Submit(Vec<OrderAction>),
}

/// `list` holds an entry with this name and these allergens.
pub open spec fn is_listed(list: Seq<DishDBEntry>, name: Seq<char>, allergens: Seq<Seq<char>>) -> bool {
    exists|i: int| 0 <= i < list.len() && (#[trigger] list[i])@ == (name, allergens)
}

/// Some allergen occurs in both lists.
pub open spec fn shares_allergen(a: Seq<Seq<char>>, b: Seq<Seq<char>>) -> bool {
    exists|i: int, j: int| 0 <= i < a.len() && 0 <= j < b.len() && #[trigger] a[i] == #[trigger] b[j]
}

/// The name by which the blacklist knows a dish listed as `name`: the piece
/// between its first and second `-`, trimmed; none without a `-`.
pub open spec fn blacklist_name(name: Seq<char>) -> Option<Seq<char>> {
    let p = split(name, '-');
    if p.len() > 1 {
        Some(trim(p[1]))
    } else {
        None
    }
}

/// The tests that pick dishes of a day.
pub enum DishTest {
    /// An ordered dish that the blacklist names, or with a blacklisted allergen.
    Cancel,
    /// A dish that the blacklist does not hold under its full name, with a
    /// blacklisted allergen.
    Candidate,
    /// A candidate that the whitelist holds under its full name.
    Preferred,
}

pub open spec fn passes(t: DishTest, s: OrdersCancelingSettings, e: (Seq<char>, DishView)) -> bool {
    let black_allergens = s.blacklisted_allergens.deep_view();
    match t {
        DishTest::Cancel => {
            &&& e.1.order_state
            &&& blacklist_name(e.0) is Some
            &&& (is_listed(s.blacklisted_dishes@, blacklist_name(e.0).unwrap(), e.1.allergens)
                || shares_allergen(e.1.allergens, black_allergens))
        },
        DishTest::Candidate => {
            &&& !is_listed(s.blacklisted_dishes@, e.0, e.1.allergens)
            &&& shares_allergen(e.1.allergens, black_allergens)
        },
        DishTest::Preferred => {
            &&& !is_listed(s.blacklisted_dishes@, e.0, e.1.allergens)
            &&& shares_allergen(e.1.allergens, black_allergens)
            &&& is_listed(s.whitelisted_dishes@, e.0, e.1.allergens)
        },
    }
}

pub open spec fn is_first(t: DishTest, s: OrdersCancelingSettings, d: Seq<(Seq<char>, DishView)>, j: int) -> bool {
    &&& 0 <= j < d.len()
    &&& passes(t, s, d[j])
    &&& forall|k: int| 0 <= k < j ==> !passes(t, s, #[trigger] d[k])
}

/// The position of the first dish of `d` that passes `t`.
pub open spec fn first(t: DishTest, s: OrdersCancelingSettings, d: Seq<(Seq<char>, DishView)>) -> Option<int> {
    if exists|j: int| is_first(t, s, d, j) {
        Some(choose|j: int| is_first(t, s, d, j))
    } else {
        None
    }
}

pub proof fn lemma_first_found(t: DishTest, s: OrdersCancelingSettings, d: Seq<(Seq<char>, DishView)>, j: int)
    requires
        is_first(t, s, d, j),
    ensures
        first(t, s, d) == Some(j),
{
    let c = choose|c: int| is_first(t, s, d, c);
    if c < j {
        assert(!passes(t, s, d[c]));
    } else if c > j {
        assert(!passes(t, s, d[j]));
    }
}

pub proof fn lemma_first_none(t: DishTest, s: OrdersCancelingSettings, d: Seq<(Seq<char>, DishView)>)
    requires
        forall|k: int| 0 <= k < d.len() ==> !passes(t, s, #[trigger] d[k]),
    ensures
        first(t, s, d) is None,
{
    if exists|j: int| is_first(t, s, d, j) {
        let c = choose|c: int| is_first(t, s, d, c);
        assert(!passes(t, s, d[c]));
    }
}

/// The strategies of the automatic canceling that send orders.
pub enum Strategy {
    Cancel,
    Replace,
    CancelAll,
}

/// The orders to cancel every ordered dish of a day.
pub open spec fn ordered_ids(d: Seq<(Seq<char>, DishView)>) -> Seq<(Seq<char>, u8)>
    decreases d.len(),
{
    if d.len() == 0 {
        Seq::empty()
    } else {
        ordered_ids(d.drop_last()) + if d.last().1.order_state {
            seq![(d.last().1.id, 0u8)]
        } else {
            Seq::empty()
        }
    }
}

/// The orders that a strategy sends for one day.
pub open spec fn day_orders(st: Strategy, s: OrdersCancelingSettings, d: Seq<(Seq<char>, DishView)>) -> Seq<(Seq<char>, u8)> {
    match st {
        Strategy::Cancel => match first(DishTest::Cancel, s, d) {
            Some(j) => seq![(d[j].1.id, 0u8)],
            None => Seq::empty(),
        },
        Strategy::Replace => match first(DishTest::Cancel, s, d) {
            Some(j) => seq![(d[j].1.id, 0u8)] + match first(DishTest::Preferred, s, d) {
                Some(p) => seq![(d[p].1.id, 1u8)],
                None => match first(DishTest::Candidate, s, d) {
                    Some(c) => seq![(d[c].1.id, 1u8)],
                    None => Seq::empty(),
                },
            },
            None => Seq::empty(),
        },
        Strategy::CancelAll => ordered_ids(d),
    }
}

/// The orders that a strategy sends for the days `days`, day after day.
pub open spec fn menu_orders(st: Strategy, s: OrdersCancelingSettings, days: Seq<Seq<(Seq<char>, DishView)>>) -> Seq<(Seq<char>, u8)>
    decreases days.len(),
{
    if days.len() == 0 {
        Seq::empty()
    } else {
        menu_orders(st, s, days.drop_last()) + day_orders(st, s, days.last())
    }
}

/// The dishes of each day of a menu, in order.
pub open spec fn menu_dishes(m: Menu) -> Seq<Seq<(Seq<char>, DishView)>> {
    Seq::new(days_of(m).len(), |i: int| dishes_of(days_of(m)[i].1.dishes))
}

/// What the automatic canceling does with a menu: `Ok(None)` for the
/// strategy `disabled`, `Ok(Some(orders))` for `cancel`, `replace` and
/// `cancelAll`, and an error for any other strategy.
pub open spec fn plan_of(s: OrdersCancelingSettings, days: Seq<Seq<(Seq<char>, DishView)>>) -> Result<Option<Seq<(Seq<char>, u8)>>, Seq<char>> {
    if s.strategy@ == "cancel"@ {
        Ok(Some(menu_orders(Strategy::Cancel, s, days)))
    } else if s.strategy@ == "replace"@ {
        Ok(Some(menu_orders(Strategy::Replace, s, days)))
    } else if s.strategy@ == "cancelAll"@ {
        Ok(Some(menu_orders(Strategy::CancelAll, s, days)))
    } else if s.strategy@ == "disabled"@ {
        Ok(None)
    } else {
        Err("Unknown strategy"@)
    }
}

pub open spec fn actions_view(v: Seq<OrderAction>) -> Seq<(Seq<char>, u8)> {
    Seq::new(v.len(), |i: int| v[i]@)
}

pub open spec fn plan_view(r: Result<OrderPlan, String>) -> Result<Option<Seq<(Seq<char>, u8)>>, Seq<char>> {
    match r {
        Ok(OrderPlan::Disabled) => Ok(None),
        Ok(OrderPlan::Submit(v)) => Ok(Some(actions_view(v@))),
        Err(e) => Err(e@),
    }
}

/// Whether two lists of strings hold the same strings in the same order.
pub fn strings_eq(a: &Vec<String>, b: &Vec<String>) -> (r: bool)
    ensures
        r == (a.deep_view() == b.deep_view()),
{
    if a.len() != b.len() {
        proof {
            assert(a.deep_view().len() != b.deep_view().len());
        }
        return false;
    }
    let mut i: usize = 0;
    while i < a.len()
        invariant
            a@.len() == b@.len(),
            i <= a@.len(),
            forall|k: int| 0 <= k < i ==> a@[k]@ == b@[k]@,
        decreases a@.len() - i,
    {
        if !str_eq(a[i].as_str(), b[i].as_str()) {
            proof {
                assert(a.deep_view()[i as int] != b.deep_view()[i as int]);
            }
            return false;
        }
        i = i + 1;
    }
    assert(a.deep_view() =~= b.deep_view());
    true
}

/// Whether `list` holds an entry with this name and these allergens.
pub fn listed(list: &Vec<DishDBEntry>, name: &str, allergens: &Vec<String>) -> (r: bool)
    ensures
        r == is_listed(list@, name@, allergens.deep_view()),
{
    let mut i: usize = 0;
    while i < list.len()
        invariant
            i <= list@.len(),
            forall|k: int| 0 <= k < i ==> (#[trigger] list@[k])@ != (name@, allergens.deep_view()),
        decreases list@.len() - i,
    {
        if str_eq(list[i].name.as_str(), name) && strings_eq(&list[i].allergens, allergens) {
            proof {
                assert(list@[i as int]@ == (name@, allergens.deep_view()));
            }
            return true;
        }
        i = i + 1;
    }
    false
}

/// Whether some allergen occurs in both lists.
pub fn share_allergen(a: &Vec<String>, b: &Vec<String>) -> (r: bool)
    ensures
        r == shares_allergen(a.deep_view(), b.deep_view()),
{
    let mut i: usize = 0;
    while i < a.len()
        invariant
            i <= a@.len(),
            forall|x: int, y: int| 0 <= x < i && 0 <= y < b@.len() ==> #[trigger] a.deep_view()[x] != #[trigger] b.deep_view()[y],
        decreases a@.len() - i,
    {
        let mut j: usize = 0;
        while j < b.len()
            invariant
                i < a@.len(),
                j <= b@.len(),
                forall|x: int, y: int| 0 <= x < i && 0 <= y < b@.len() ==> #[trigger] a.deep_view()[x] != #[trigger] b.deep_view()[y],
                forall|y: int| 0 <= y < j ==> a.deep_view()[i as int] != #[trigger] b.deep_view()[y],
            decreases b@.len() - j,
        {
            if str_eq(a[i].as_str(), b[j].as_str()) {
                proof {
                    assert(a.deep_view()[i as int] == b.deep_view()[j as int]);
                }
                return true;
            }
            j = j + 1;
        }
        i = i + 1;
    }
    false
}

/// The name by which the blacklist knows a dish listed as `name`.
pub fn blacklist_name_of(name: &str) -> (r: Option<String>)
    ensures
        r matches Some(n) ==> blacklist_name(name@) == Some(n@),
        r is None ==> blacklist_name(name@) is None,
{
    let v = chars_of(name);
    let parts = split_ranges(&v, '-');
    if parts.len() > 1 {
        let (a, b) = parts[1];
        let piece = string_of(&v, a, b);
        proof {
            assert(pieces(v@, parts@)[1] == v@.subrange(a as int, b as int));
        }
        Some(trim_str(piece.as_str()))
    } else {
        None
    }
}

/// Whether dish `e` of a day passes `t`.
fn passes_test(t: &DishTest, s: &OrdersCancelingSettings, name: &String, info: &crate::menu::DishInfo) -> (r: bool)
    ensures
        r == passes(*t, *s, (name@, info@)),
{
    match t {
        DishTest::Cancel => {
            if !info.order_state {
                return false;
            }
            match blacklist_name_of(name.as_str()) {
                Some(n) => listed(&s.blacklisted_dishes, n.as_str(), &info.allergens) || share_allergen(
                    &info.allergens,
                    &s.blacklisted_allergens,
                ),
                None => false,
            }
        },
        DishTest::Candidate => {
            !listed(&s.blacklisted_dishes, name.as_str(), &info.allergens) && share_allergen(
                &info.allergens,
                &s.blacklisted_allergens,
            )
        },
        DishTest::Preferred => {
            !listed(&s.blacklisted_dishes, name.as_str(), &info.allergens) && share_allergen(
                &info.allergens,
                &s.blacklisted_allergens,
            ) && listed(&s.whitelisted_dishes, name.as_str(), &info.allergens)
        },
    }
}

/// The position of the first dish of a day that passes `t`.
fn find_first(t: &DishTest, s: &OrdersCancelingSettings, dishes: &Dishes) -> (r: Option<usize>)
    ensures
        r matches Some(j) ==> first(*t, *s, dishes_of(*dishes)) == Some(j as int),
        r is None ==> first(*t, *s, dishes_of(*dishes)) is None,
{
    let ghost d = dishes_of(*dishes);
    let n = dishes_len(dishes);
    let mut i: usize = 0;
    while i < n
        invariant
            d == dishes_of(*dishes),
            n == d.len(),
            i <= n,
            forall|k: int| 0 <= k < i ==> !passes(*t, *s, #[trigger] d[k]),
        decreases n - i,
    {
        let (name, info) = dish_at(dishes, i);
        if passes_test(t, s, name, info) {
            proof {
                assert(d[i as int] == (name@, info@));
                lemma_first_found(*t, *s, d, i as int);
            }
            return Some(i);
        }
        proof {
            assert(d[i as int] == (name@, info@));
        }
        i = i + 1;
    }
    proof {
        lemma_first_none(*t, *s, d);
    }
    None
}

fn dish_id_at(dishes: &Dishes, i: usize) -> (r: String)
    requires
        i < dishes_of(*dishes).len(),
    ensures
        r@ == dishes_of(*dishes)[i as int].1.id,
{
    let (_name, info) = dish_at(dishes, i);
    info.id.clone()
}

/// The orders that a strategy sends for one day, appended to `out`.
fn plan_day(st: &Strategy, s: &OrdersCancelingSettings, dishes: &Dishes, out: &mut Vec<OrderAction>)
    ensures
        actions_view(final(out)@) == actions_view(old(out)@) + day_orders(*st, *s, dishes_of(*dishes)),
{
    let ghost d = dishes_of(*dishes);
    let ghost start = actions_view(out@);
    match st {
        Strategy::Cancel => {
            match find_first(&DishTest::Cancel, s, dishes) {
                Some(j) => {
                    out.push(OrderAction { dish_id: dish_id_at(dishes, j), amount: 0 });
                },
                None => {},
            }
            assert(actions_view(out@) =~= start + day_orders(*st, *s, d));
        },
        Strategy::Replace => {
            match find_first(&DishTest::Cancel, s, dishes) {
                Some(j) => {
                    out.push(OrderAction { dish_id: dish_id_at(dishes, j), amount: 0 });
                    match find_first(&DishTest::Preferred, s, dishes) {
                        Some(p) => {
                            out.push(OrderAction { dish_id: dish_id_at(dishes, p), amount: 1 });
                        },
                        None => {
                            match find_first(&DishTest::Candidate, s, dishes) {
                                Some(c) => {
                                    out.push(OrderAction { dish_id: dish_id_at(dishes, c), amount: 1 });
                                },
                                None => {},
                            }
                        },
                    }
                },
                None => {},
            }
            assert(actions_view(out@) =~= start + day_orders(*st, *s, d));
        },
        Strategy::CancelAll => {
            let n = dishes_len(dishes);
            let mut i: usize = 0;
            assert(d.take(0) =~= Seq::<(Seq<char>, DishView)>::empty());
            assert(actions_view(out@) =~= start + ordered_ids(d.take(0)));
            while i < n
                invariant
                    d == dishes_of(*dishes),
                    n == d.len(),
                    i <= n,
                    actions_view(out@) == start + ordered_ids(d.take(i as int)),
                decreases n - i,
            {
                let (_name, info) = dish_at(dishes, i);
                let ghost before = actions_view(out@);
                if info.order_state {
                    out.push(OrderAction { dish_id: info.id.clone(), amount: 0 });
                }
                proof {
                    let t = d.take(i + 1);
                    assert(t.drop_last() =~= d.take(i as int));
                    assert(t.last() == d[i as int]);
                    assert(d[i as int].1 == info@);
                    let tail = if t.last().1.order_state {
                        seq![(t.last().1.id, 0u8)]
                    } else {
                        Seq::empty()
                    };
                    assert(ordered_ids(t) == ordered_ids(t.drop_last()) + tail);
                    assert(actions_view(out@) =~= before + tail);
                }
                i = i + 1;
                assert(actions_view(out@) =~= start + ordered_ids(d.take(i as int)));
            }
            assert(d.take(n as int) =~= d);
        },
    }
}

/// The orders that a strategy sends for a whole menu, day after day.
fn plan_menu(st: &Strategy, s: &OrdersCancelingSettings, menu: &Menu) -> (r: Vec<OrderAction>)
    ensures
        actions_view(r@) == menu_orders(*st, *s, menu_dishes(*menu)),
{
    let ghost days = menu_dishes(*menu);
    let n = days_len(menu);
    let mut out: Vec<OrderAction> = Vec::new();
    let mut i: usize = 0;
    assert(days.take(0) =~= Seq::<Seq<(Seq<char>, DishView)>>::empty());
    assert(actions_view(out@) =~= menu_orders(*st, *s, days.take(0)));
    while i < n
        invariant
            days == menu_dishes(*menu),
            n == days.len(),
            i <= n,
            actions_view(out@) == menu_orders(*st, *s, days.take(i as int)),
        decreases n - i,
    {
        let (_key, day) = day_at(menu, i);
        plan_day(st, s, &day.dishes, &mut out);
        proof {
            assert(days.take(i + 1).drop_last() =~= days.take(i as int));
            assert(days.take(i + 1).last() == days[i as int]);
            assert(days[i as int] == dishes_of(day.dishes));
        }
        i = i + 1;
    }
    assert(days.take(n as int) =~= days);
    out
}

/// Decides what the automatic canceling does with a user's menu: which
/// orders to send (cancel with 0 portions, order a replacement with 1), or
/// nothing for the strategy `disabled`, or an error for an unknown strategy.
pub fn plan_orders(settings: &OrdersCancelingSettings, menu: &Menu) -> (r: Result<OrderPlan, String>)
    ensures
        plan_view(r) == plan_of(*settings, menu_dishes(*menu)),
{
    let strategy = settings.strategy.as_str();
    if str_eq(strategy, "cancel") {
        let v = plan_menu(&Strategy::Cancel, settings, menu);
        Ok(OrderPlan::Submit(v))
    } else if str_eq(strategy, "replace") {
        let v = plan_menu(&Strategy::Replace, settings, menu);
        Ok(OrderPlan::Submit(v))
    } else if str_eq(strategy, "cancelAll") {
        let v = plan_menu(&Strategy::CancelAll, settings, menu);
        Ok(OrderPlan::Submit(v))
    } else if str_eq(strategy, "disabled") {
        Ok(OrderPlan::Disabled)
    } else {
        Err(String::from_str("Unknown strategy"))
    }
}

} // verus!
