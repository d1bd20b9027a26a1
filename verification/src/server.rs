use vstd::prelude::*;
use vstd::string::*;
use crate::text::{chars_of, i32_string, push_char, signed_decimal};
use crate::json::{Json, json_text, parse_json_string};
use crate::settings::SettingsData;

verus! {

/// The body of a successful answer: `{"key": value }`, the value written as JSON.
pub fn succes(key: &str, value: &str) -> (r: String)
    ensures
        r@ == "{\""@ + key@ + "\": "@ + value@ + " }"@,
{
    let mut r = String::from_str("{\"");
    r.append(key);
    r.append("\": ");
    r.append(value);
    r.append(" }");
    r
}

/// The body of an answer that carries only a message: `{"message":"..."}`.
pub fn server_error(message: &str) -> (r: String)
    ensures
        r@ == "{\"message\":\""@ + message@ + "\"}"@,
{
    let mut r = String::from_str("{\"message\":\"");
    r.append(message);
    r.append("\"}");
    r
}

/// `value` written as a JSON string, without escaping: `"value"`.
pub fn quoted(value: &str) -> (r: String)
    ensures
        r@ == "\""@ + value@ + "\""@,
{
    let mut r = String::from_str("\"");
    r.append(value);
    r.append("\"");
    r
}

/// The body of a successful login, with the user written as JSON.
pub fn login_success_body(user_json: &str) -> (r: String)
    ensures
        r@ == "{\"message\":\"succesfully logged in\",\"user\":"@ + user_json@ + "}"@,
{
    let mut r = String::from_str("{\"message\":\"succesfully logged in\",\"user\":");
    r.append(user_json);
    r.append("}");
    r
}

/// The body of a successful logout.
pub fn logout_body(username: &str) -> (r: String)
    ensures
        r@ == "{\""@ + "message"@ + "\": "@ + ("\""@ + username@ + " was succesfully logged out\""@) + " }"@,
{
    let mut name = String::from_str("\"");
    name.append(username);
    name.append(" was succesfully logged out\"");
    succes("message", name.as_str())
}

/// The identity of a user's data: the user name followed by the canteen number.
pub fn user_id(username: &str, cantine: &str) -> (r: String)
    ensures
        r@ == username@ + cantine@,
{
    let mut r = String::from_str(username);
    r.append(cantine);
    r
}

/// The identity of a session: the user's identity followed by a number.
pub fn session_id(id: &str, n: i16) -> (r: String)
    ensures
        r@ == id@ + signed_decimal(n as int),
{
    let mut r = String::from_str(id);
    r.append(i32_string(n as i32).as_str());
    r
}

/// `s` with every line break `\r\n` replaced by a space, from left to right.
pub open spec fn one_line(s: Seq<char>) -> Seq<char>
    decreases s.len(),
{
    if s.len() == 0 {
        s
    } else if s.len() >= 2 && s[0] == '\r' && s[1] == '\n' {
        seq![' '] + one_line(s.skip(2))
    } else {
        seq![s[0]] + one_line(s.drop_first())
    }
}

/// `s` with every line break `\r\n` replaced by a space.
pub fn replace_line_breaks(s: &str) -> (r: String)
    ensures
        r@ == one_line(s@),
{
    let v = chars_of(s);
    let n = v.len();
    let mut r = String::new();
    let mut i: usize = 0;
    assert(v@.skip(0) =~= v@);
    assert(r@ + one_line(v@.skip(0)) =~= one_line(v@));
    while i < n
        invariant
            v@ == s@,
            n == v@.len(),
            i <= n,
            r@ + one_line(v@.skip(i as int)) == one_line(v@),
        decreases n - i,
    {
        let ghost t = v@.skip(i as int);
        if i + 1 < n && v[i] == '\r' && v[i + 1] == '\n' {
            proof {
                assert(t[0] == '\r' && t[1] == '\n');
                assert(t.skip(2) =~= v@.skip(i + 2));
            }
            push_char(&mut r, ' ');
            i = i + 2;
        } else {
            let c = v[i];
            proof {
                assert(t[0] == c);
                if t.len() >= 2 {
                    assert(t[1] == v@[i + 1]);
                }
                assert(t.drop_first() =~= v@.skip(i + 1));
            }
            push_char(&mut r, c);
            i = i + 1;
        }
    }
    assert(v@.skip(n as int) =~= Seq::<char>::empty());
    r
}

/// The body of an answer to saving orders that failed: the reason on one line
/// and the balance of the account.
pub fn save_failure_body(error: &str, account: &str) -> (r: String)
    ensures
        r@ == "{\"message\":\""@ + one_line(error@) + "\", \"account\": \""@ + account@ + "\"}"@,
{
    let mut r = String::from_str("{\"message\":\"");
    r.append(replace_line_breaks(error).as_str());
    r.append("\", \"account\": \"");
    r.append(account);
    r.append("\"}");
    r
}

/// The kinds of items of the settings that a request can change.
pub enum SettingsItemKind {
    Dish,
    Strategy,
    Allergen,
}

/// Which kind of item a request to change the list `list` carries: a dish for
/// the blacklist and the whitelist, a strategy, or an allergen; none for any
/// other list.
pub fn settings_item_kind(list: &str) -> (r: Option<SettingsItemKind>)
    ensures
        (list@ == "blacklist"@ || list@ == "whitelist"@) <==> r matches Some(SettingsItemKind::Dish),
        list@ == "strategy"@ <==> r matches Some(SettingsItemKind::Strategy),
        list@ == "allergens"@ <==> r matches Some(SettingsItemKind::Allergen),
{
    proof {
        reveal_strlit("blacklist");
        reveal_strlit("whitelist");
        reveal_strlit("strategy");
        reveal_strlit("allergens");
        assert("strategy"@[0] == 's');
        assert("allergens"@[0] == 'a');
        assert("blacklist"@[0] == 'b');
        assert("whitelist"@[0] == 'w');
    }
    if crate::text::str_eq(list, "blacklist") || crate::text::str_eq(list, "whitelist") {
        Some(SettingsItemKind::Dish)
    } else if crate::text::str_eq(list, "strategy") {
        Some(SettingsItemKind::Strategy)
    } else if crate::text::str_eq(list, "allergens") {
        Some(SettingsItemKind::Allergen)
    } else {
        None
    }
}

/// The item that a request to change the strategy or the allergens carries:
/// its body read as a JSON string; none where the body is no JSON string.
pub fn settings_string_item(kind: &SettingsItemKind, body: &str) -> (r: Option<SettingsData>)
    requires
        !(*kind is Dish),
    ensures
        r is Some <==> json_text(body@) matches Some(Json::Str(_)),
        r matches Some(SettingsData::Strategy(s)) ==> *kind is Strategy && json_text(body@) == Some(Json::Str(s)),
        r matches Some(SettingsData::Allergen(s)) ==> *kind is Allergen && json_text(body@) == Some(Json::Str(s)),
        !(r matches Some(SettingsData::Dish(_))),
{
    match parse_json_string(body) {
        Some(s) => match kind {
            SettingsItemKind::Strategy => Some(SettingsData::Strategy(s)),
            _ => Some(SettingsData::Allergen(s)),
        },
        None => None,
    }
}

} // verus!
