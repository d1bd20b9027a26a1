use vstd::prelude::*;
use vstd::string::*;
use vstd::utf8::encode_utf8;
use crate::json::{Json, json_object_text, json_string, json_text, parse_json, parse_json_object, to_json_string};
use crate::reply::{Error, RequestResult, Succes, Unauthorized, database_reply};
use crate::settings::OrdersCancelingSettings;
use crate::text::decimal_string;
use crate::text::decimal;
use crate::text::str_eq;

verus! {

/// The bytes that a URL carries as they are: ASCII letters and digits and `-._~`.
pub open spec fn is_url_safe(b: u8) -> bool {
    ||| (48 <= b <= 57)
    ||| (65 <= b <= 90)
    ||| (97 <= b <= 122)
    ||| b == 45
    ||| b == 46
    ||| b == 95
    ||| b == 126
}

/// An upper-case hex digit.
pub open spec fn hex_digit(d: int) -> char {
    if d < 10 {
        (d + 48) as char
    } else {
        (d + 55) as char
    }
}

/// Percent-encoding: every byte that is not URL-safe becomes `%` and its two
/// upper-case hex digits.
pub open spec fn percent_encode(bytes: Seq<u8>) -> Seq<char>
    decreases bytes.len(),
{
    if bytes.len() == 0 {
        Seq::empty()
    } else {
        let b = bytes[0];
        (if is_url_safe(b) {
            seq![b as char]
        } else {
            seq!['%', hex_digit(b as int / 16), hex_digit(b as int % 16)]
        }) + percent_encode(bytes.drop_first())
    }
}

/// urlencoding: `encode`. Claimed, as its documentation and its source show:
/// every byte of the UTF-8 encoding of `s` other than an ASCII letter or
/// digit or one of `-._~` becomes `%` and two upper-case hex digits, the
/// others stay as they are.
#[verifier::external_body]
pub fn url_encode(s: &str) -> (r: String)
    ensures
        r@ == percent_encode(encode_utf8(s@)),
{
    urlencoding::encode(s).into_owned()
}

/// The address of the database service.
pub open spec fn endpoint() -> Seq<char> {
    "https://strava.jumpingcrab.com"@
}

/// The address of `path` at the database service.
pub fn endpoint_url(path: &str) -> (r: String)
    ensures
        r@ == endpoint() + path@,
{
    let mut r = String::from_str("https://strava.jumpingcrab.com");
    r.append(path);
    r
}

pub open spec fn enc(s: Seq<char>) -> Seq<char> {
    percent_encode(encode_utf8(s))
}

/// The address that asks for the dish history of a canteen.
pub fn cantine_history_url(cantine_id: &str, query: &str, list_to_query: &str) -> (r: String)
    ensures
        r@ == endpoint() + "/cantine_history?cantine_id="@ + enc(cantine_id@) + "&query="@ + enc(query@)
            + "&list="@ + enc(list_to_query@),
{
    let mut r = endpoint_url("/cantine_history?cantine_id=");
    r.append(url_encode(cantine_id).as_str());
    r.append("&query=");
    r.append(url_encode(query).as_str());
    r.append("&list=");
    r.append(url_encode(list_to_query).as_str());
    r
}

/// The address that searches the user's settings.
pub fn settings_query_url(query: &str, list_to_query: &str) -> (r: String)
    ensures
        r@ == endpoint() + "/settings_query?query="@ + enc(query@) + "&list="@ + enc(list_to_query@),
{
    let mut r = endpoint_url("/settings_query?query=");
    r.append(url_encode(query).as_str());
    r.append("&list=");
    r.append(url_encode(list_to_query).as_str());
    r
}

/// The address that changes the user's settings.
pub fn update_settings_url(action: &str, list_to_update: &str) -> (r: String)
    ensures
        r@ == endpoint() + "/user_settings?action="@ + enc(action@) + "&list="@ + enc(list_to_update@),
{
    let mut r = endpoint_url("/user_settings?action=");
    r.append(url_encode(action).as_str());
    r.append("&list=");
    r.append(url_encode(list_to_update).as_str());
    r
}

/// The body of a request to the ordering service: the session, the canteen
/// and the request's own arguments.
pub fn template_body(sid: &str, url_arg: &str, url: &str, canteen_id: &str, body_args: &str) -> (r: String)
    ensures
        r@ == "{\"lang\":\"EN\",\"ignoreCert\":\"false\",\"sid\":\""@ + sid@ + "\",\""@ + url_arg@ + "\":\""@
            + url@ + "\",\"cislo\":\""@ + canteen_id@ + "\","@ + body_args@ + "}"@,
{
    let mut r = String::from_str("{\"lang\":\"EN\",\"ignoreCert\":\"false\",\"sid\":\"");
    r.append(sid);
    r.append("\",\"");
    r.append(url_arg);
    r.append("\":\"");
    r.append(url);
    r.append("\",\"cislo\":\"");
    r.append(canteen_id);
    r.append("\",");
    r.append(body_args);
    r.append("}");
    r
}

/// The arguments of an order: the dish and the number of portions.
pub fn order_dish_args(dish_id: &str, amount: u8) -> (r: String)
    ensures
        r@ == "\"veta\":\""@ + dish_id@ + "\",\"pocet\":\""@ + decimal(amount as nat) + "\""@,
{
    let mut r = String::from_str("\"veta\":\"");
    r.append(dish_id);
    r.append("\",\"pocet\":\"");
    r.append(decimal_string(amount as u32).as_str());
    r.append("\"");
    r
}

/// The arguments of a request for the user's menu.
pub fn user_menu_args() -> (r: String)
    ensures
        r@ == "\"konto\":\"0\",\"podminka\":\"\",\"resetTables\":\"true\""@,
{
    String::from_str("\"konto\":\"0\",\"podminka\":\"\",\"resetTables\":\"true\"")
}

/// The arguments of a request to save the orders.
pub fn save_orders_args() -> (r: String)
    ensures
        r@ == "\"xml\":null"@,
{
    String::from_str("\"xml\":null")
}

/// The body of a request for a canteen's menu.
pub fn cantine_menu_body(cantine_id: &str) -> (r: String)
    ensures
        r@ == "{\"cislo\": \""@ + cantine_id@ + "\", \"s5url\":\"\",\"lang\":\"CZ\",\"ignoreCert\":false }"@,
{
    let mut r = String::from_str("{\"cislo\": \"");
    r.append(cantine_id);
    r.append("\", \"s5url\":\"\",\"lang\":\"CZ\",\"ignoreCert\":false }");
    r
}

/// What a successful login answers: the session, the address of the
/// canteen's service, the user's name and the text of the account balance.
pub struct LoginReply {
    pub sid: String,
    pub url: String,
    pub username: String,
    pub account: String,
}

/// A member `key` that is a string.
pub open spec fn str_field(j: Json, key: Seq<char>) -> Option<Seq<char>> {
    match j.field(key) {
        Some(v) => v.str_of(),
        None => None,
    }
}

/// What a successful login answers: `sid`, `s5url`, and `jmeno` and `konto`
/// of `uzivatel`; none where one of them is missing or no string.
pub open spec fn login_reply_of(j: Json) -> Option<(Seq<char>, Seq<char>, Seq<char>, Seq<char>)> {
    match (str_field(j, "sid"@), str_field(j, "s5url"@), j.field("uzivatel"@)) {
        (Some(sid), Some(url), Some(user)) => match (str_field(user, "jmeno"@), str_field(user, "konto"@)) {
            (Some(name), Some(account)) => Some((sid, url, name, account)),
            _ => None,
        },
        _ => None,
    }
}

fn read_str_field(j: &Json, key: &str) -> (r: Option<String>)
    ensures
        r matches Some(s) ==> str_field(*j, key@) == Some(s@),
        r is None ==> str_field(*j, key@) is None,
{
    match j.get(key) {
        Some(v) => match v.as_str() {
            Some(s) => Some(s.clone()),
            None => None,
        },
        None => None,
    }
}

/// Reads what a successful login answers.
pub fn read_login_reply(reply: &Json) -> (r: Option<LoginReply>)
    ensures
        r matches Some(l) ==> login_reply_of(*reply) == Some((l.sid@, l.url@, l.username@, l.account@)),
        r is None ==> login_reply_of(*reply) is None,
{
    let sid = read_str_field(reply, "sid");
    let url = read_str_field(reply, "s5url");
    let user = reply.get("uzivatel");
    match (sid, url, user) {
        (Some(sid), Some(url), Some(user)) => {
            let name = read_str_field(user, "jmeno");
            let account = read_str_field(user, "konto");
            match (name, account) {
                (Some(username), Some(account)) => Some(LoginReply { sid, url, username, account }),
                _ => None,
            }
        },
        _ => None,
    }
}

/// What a successful login answers, read from the reply's JSON text.
pub open spec fn login_text_reply(text: Seq<char>) -> Option<(Seq<char>, Seq<char>, Seq<char>, Seq<char>)> {
    match json_text(text) {
        Some(j) => login_reply_of(j),
        None => None,
    }
}

/// Reads what a successful login answers from the reply's text; none where
/// the text is no JSON or lacks a member.
pub fn login_reply_from_text(text: &str) -> (r: Option<LoginReply>)
    ensures
        r matches Some(l) ==> login_text_reply(text@) == Some((l.sid@, l.url@, l.username@, l.account@)),
        r is None ==> login_text_reply(text@) is None,
{
    match parse_json(text) {
        Some(j) => read_login_reply(&j),
        None => None,
    }
}

/// The ordering service accepts a login with a status from 200 to 300.
pub fn login_succeeded(status: u16) -> (r: bool)
    ensures
        r == (200 <= status <= 300),
{
    200 <= status && status <= 300
}

pub open spec fn wrong_credentials_message() -> Seq<char> {
    "Špatné uživatelské jméno nebo heslo"@
}

pub open spec fn communication_failure_message() -> Seq<char> {
    "Při komunikaci se serverem došlo k chybě"@
}

pub open spec fn server_failure_message() -> Seq<char> {
    "Došlo k chybě serveru, zkuste to znovu později"@
}

/// The message for a refused login: the error number 20 means wrong
/// credentials, any other a failure of the communication.
pub fn login_failure_message(number: i64) -> (r: String)
    ensures
        r@ == if number == 20 { wrong_credentials_message() } else { communication_failure_message() },
{
    if number == 20 {
        String::from_str("Špatné uživatelské jméno nebo heslo")
    } else {
        String::from_str("Při komunikaci se serverem došlo k chybě")
    }
}

/// The error number of a refused login, read from the reply's JSON text: its
/// member `number`, where that is a whole number.
pub open spec fn login_failure_number(text: Seq<char>) -> Option<i64> {
    match json_text(text) {
        Some(j) => match j.field("number"@) {
            Some(n) => n.i64_of(),
            None => None,
        },
        None => None,
    }
}

/// The message for a refused login, from the reply's text; none where the
/// reply holds no error number.
pub fn login_failure_from_text(text: &str) -> (r: Option<String>)
    ensures
        r is Some <==> login_failure_number(text@) is Some,
        r matches Some(m) ==> m@ == if login_failure_number(text@).unwrap() == 20 {
            wrong_credentials_message()
        } else {
            communication_failure_message()
        },
{
    let j = match parse_json(text) {
        Some(j) => j,
        None => {
            return None;
        },
    };
    match j.get("number") {
        Some(n) => match n.as_i64() {
            Some(number) => Some(login_failure_message(number)),
            None => None,
        },
        None => None,
    }
}

/// The reply to a login that failed with `message`: `Unauthorized` where the
/// credentials were wrong, the message as an error otherwise.
pub fn login_failure_reply<T>(message: String) -> (r: RequestResult<T, String>)
    ensures
        message@ == wrong_credentials_message() ==> (r matches RequestResult::Unauthorized(u) && u._t@ == "unauthorized"@),
        message@ != wrong_credentials_message() ==> (r matches RequestResult::Error(e) && e.error == message && e._t@ == "failure"@),
{
    if str_eq(message.as_str(), "Špatné uživatelské jméno nebo heslo") {
        RequestResult::Unauthorized(Unauthorized::new())
    } else {
        RequestResult::Error(Error::new(message))
    }
}

/// The message for a login that could not be sent.
pub fn communication_failure() -> (r: String)
    ensures
        r@ == communication_failure_message(),
{
    String::from_str("Při komunikaci se serverem došlo k chybě")
}

/// The message for a reply of the ordering service that cannot be read.
pub fn server_failure() -> (r: String)
    ensures
        r@ == server_failure_message(),
{
    String::from_str("Došlo k chybě serveru, zkuste to znovu později")
}

/// What the ordering service answers to an order: the new balance of the
/// account, as text, or the reason of a failure.
pub enum OrderReply {
    Balance(String),
    Failed(String),
}

/// The answer to an order. `body` is the reply read as a JSON object, none
/// where it is not one. On status 200 the reply's `konto` is the new
/// balance; otherwise its `message` is the reason; where the member is
/// missing the reason is a failure of the server.
pub open spec fn order_reply_of(status: u16, body: Option<Json>) -> (bool, Seq<char>) {
    let key = if status == 200 { "konto"@ } else { "message"@ };
    match body {
        Some(j) => match j.field(key) {
            Some(v) => (status == 200, v.str_of().unwrap()),
            None => (false, server_failure_message()),
        },
        None => (false, server_failure_message()),
    }
}

/// The member that the answer to an order reads is a string wherever present.
pub open spec fn order_reply_ok(status: u16, body: Option<Json>) -> bool {
    let key = if status == 200 { "konto"@ } else { "message"@ };
    match body {
        Some(j) => j.field(key) is Some ==> j.field(key).unwrap().str_of() is Some,
        None => true,
    }
}

pub fn read_order_reply(status: u16, body: &Option<Json>) -> (r: OrderReply)
    requires
        order_reply_ok(status, *body),
    ensures
        order_reply_of(status, *body) == (match r {
            OrderReply::Balance(b) => (true, b@),
            OrderReply::Failed(m) => (false, m@),
        }),
{
    let key = if status == 200 { "konto" } else { "message" };
    match body {
        Some(j) => match j.get(key) {
            Some(v) => {
                let text = v.as_str().unwrap().clone();
                if status == 200 {
                    OrderReply::Balance(text)
                } else {
                    OrderReply::Failed(text)
                }
            },
            None => OrderReply::Failed(server_failure()),
        },
        None => OrderReply::Failed(server_failure()),
    }
}

/// The answer to saving the orders: done on status 200; on a status from 500
/// to 600 the reply's `message`; a failure of the server otherwise.
pub open spec fn save_reply_of(status: u16, body: Option<Json>) -> Result<(), Seq<char>> {
    if status == 200 {
        Ok(())
    } else if 500 <= status <= 600 {
        Err(str_field(body.unwrap(), "message"@).unwrap())
    } else {
        Err(server_failure_message())
    }
}

pub fn read_save_reply(status: u16, body: &Option<Json>) -> (r: Result<(), String>)
    requires
        500 <= status <= 600 ==> (*body matches Some(j) && str_field(j, "message"@) is Some),
    ensures
        save_reply_of(status, *body) == match r {
            Ok(()) => Ok(()),
            Err(m) => Err(m@),
        },
{
    if status == 200 {
        Ok(())
    } else if 500 <= status && status <= 600 {
        match body {
            Some(j) => Err(read_str_field(j, "message").unwrap()),
            None => Err(server_failure()),
        }
    } else {
        Err(server_failure())
    }
}

/// Whether the member that the answer to an order reads is a string wherever
/// present.
pub fn order_reply_readable(status: u16, body: &Option<Json>) -> (r: bool)
    ensures
        r == order_reply_ok(status, *body),
{
    let key = if status == 200 { "konto" } else { "message" };
    match body {
        Some(j) => match j.get(key) {
            Some(v) => v.as_str().is_some(),
            None => true,
        },
        None => true,
    }
}

/// The answer to an order, from the status and the text of the reply; none
/// where the member it reads is present but no string.
pub fn order_reply_from_text(status: u16, text: &str) -> (r: Option<OrderReply>)
    ensures
        r is Some <==> order_reply_ok(status, json_object_text(text@)),
        r matches Some(o) ==> order_reply_of(status, json_object_text(text@)) == (match o {
            OrderReply::Balance(b) => (true, b@),
            OrderReply::Failed(m) => (false, m@),
        }),
{
    let body = parse_json_object(text);
    if order_reply_readable(status, &body) {
        Some(read_order_reply(status, &body))
    } else {
        None
    }
}

/// The answer to saving the orders, from the status and the text of the
/// reply (read only for a status from 500 to 600); none where such a reply is
/// no object with a string `message`.
pub fn save_reply_from_text(status: u16, text: &str) -> (r: Option<Result<(), String>>)
    ensures
        r is Some <==> (500 <= status <= 600 ==> (json_object_text(text@) matches Some(j) && str_field(j, "message"@) is Some)),
        r matches Some(x) ==> save_reply_of(status, json_object_text(text@)) == match x {
            Ok(()) => Ok(()),
            Err(m) => Err(m@),
        },
{
    if 500 <= status && status <= 600 {
        let body = parse_json_object(text);
        let readable = match &body {
            Some(j) => read_str_field(j, "message").is_some(),
            None => false,
        };
        if readable {
            Some(read_save_reply(status, &body))
        } else {
            None
        }
    } else {
        Some(read_save_reply(status, &None))
    }
}

/// The answer of the database service to a login: none on status 200; wrong
/// credentials on 401; a failure of the database otherwise.
pub fn database_login_failure(status: u16) -> (r: Option<String>)
    ensures
        status == 200 ==> r is None,
        status == 401 ==> (r matches Some(m) && m@ == wrong_credentials_message()),
        status != 200 && status != 401 ==> (r matches Some(m) && m@ == crate::reply::database_failure_message()),
{
    if status == 200 {
        None
    } else if status == 401 {
        Some(String::from_str("Špatné uživatelské jméno nebo heslo"))
    } else {
        Some(crate::reply::database_failure())
    }
}

/// The settings of a user who has none yet: empty lists and the strategy
/// `replace`.
pub fn default_settings() -> (r: OrdersCancelingSettings)
    ensures
        r.blacklisted_dishes@.len() == 0,
        r.whitelisted_dishes@.len() == 0,
        r.blacklisted_allergens@.len() == 0,
        r.strategy@ == "replace"@,
{
    OrdersCancelingSettings {
        blacklisted_allergens: Vec::new(),
        blacklisted_dishes: Vec::new(),
        whitelisted_dishes: Vec::new(),
        strategy: String::from_str("replace"),
    }
}

/// The answer of the database service to a request for the user's settings:
/// the settings on status 200, the default settings on 304 (not modified),
/// `Unauthorized` on 401, and the service's message otherwise.
pub fn settings_reply(status: u16, settings: Option<OrdersCancelingSettings>, message: Option<String>) -> (r: RequestResult<OrdersCancelingSettings, String>)
    requires
        status == 200 ==> settings is Some,
        status != 200 && status != 304 && status != 401 ==> message is Some,
    ensures
        status == 304 ==> (r matches RequestResult::Succes(s) && s.data.strategy@ == "replace"@
            && s.data.blacklisted_dishes@.len() == 0 && s.data.whitelisted_dishes@.len() == 0
            && s.data.blacklisted_allergens@.len() == 0 && s._t@ == "success"@),
        status != 304 ==> (r matches RequestResult::Succes(s) ==> status == 200 && s.data == settings.unwrap()),
        status != 304 ==> (r is Succes <==> status == 200),
        r is Unauthorized <==> status == 401,
        r matches RequestResult::Error(e) ==> e.error@ == message.unwrap()@,
        r matches RequestResult::Succes(s) ==> s._t@ == "success"@,
        r matches RequestResult::Unauthorized(u) ==> u._t@ == "unauthorized"@,
        r matches RequestResult::Error(e) ==> e._t@ == "failure"@,
{
    if status == 304 {
        RequestResult::Succes(Succes::new(default_settings()))
    } else {
        database_reply(status, true, settings, message)
    }
}


/// A user's credentials for a login.
pub struct User<'a> {
    pub username: &'a str,
    pub password: &'a str,
    pub cantine: &'a str,
    pub lang: &'a str,
    pub stay_logged: bool,
}

pub open spec fn bool_text(b: bool) -> Seq<char> {
    if b {
        "true"@
    } else {
        "false"@
    }
}

impl<'a> User<'a> {
    /// The user written as JSON for a login at the ordering service: password,
    /// name, canteen number, language and whether to stay logged in.
    pub fn login_body(&self) -> (r: String)
        ensures
            r@ == "{\"heslo\":"@ + json_string(self.password@) + ",\"jmeno\":"@ + json_string(self.username@)
                + ",\"cislo\":"@ + json_string(self.cantine@) + ",\"lang\":"@ + json_string(self.lang@)
                + ",\"zustatPrihlasen\":"@ + bool_text(self.stay_logged) + "}"@,
    {
        let mut r = String::from_str("{\"heslo\":");
        r.append(to_json_string(self.password).as_str());
        r.append(",\"jmeno\":");
        r.append(to_json_string(self.username).as_str());
        r.append(",\"cislo\":");
        r.append(to_json_string(self.cantine).as_str());
        r.append(",\"lang\":");
        r.append(to_json_string(self.lang).as_str());
        r.append(",\"zustatPrihlasen\":");
        if self.stay_logged {
            r.append("true");
        } else {
            r.append("false");
        }
        r.append("}");
        r
    }
}

/// Where the menu comes from: the ordering service's interface, or its web
/// page read in a browser.
pub enum MenuSource {
    Api,
    Scraper,
}

pub open spec fn bad_source_message() -> Seq<char> {
    "Chybná konfigurace způsobu získání dat v souboru config.toml"@
}

/// The source of the menu that the setting `data_source` names: `api` or
/// `scraper`; any other value is a mistake of the configuration.
pub fn menu_source(data_source: &str) -> (r: Result<MenuSource, String>)
    ensures
        data_source@ == "api"@ <==> r matches Ok(MenuSource::Api),
        data_source@ == "scraper"@ <==> r matches Ok(MenuSource::Scraper),
        r matches Err(e) ==> e@ == bad_source_message(),
{
    proof {
        reveal_strlit("api");
        reveal_strlit("scraper");
        assert("api"@[0] == 'a');
        assert("scraper"@[0] == 's');
    }
    if crate::text::str_eq(data_source, "api") {
        Ok(MenuSource::Api)
    } else if crate::text::str_eq(data_source, "scraper") {
        Ok(MenuSource::Scraper)
    } else {
        Err(String::from_str("Chybná konfigurace způsobu získání dat v souboru config.toml"))
    }
}

/// The member `key` of a reply, where it is a string.
pub fn string_member(reply: &Json, key: &str) -> (r: Option<String>)
    ensures
        r matches Some(s) ==> str_field(*reply, key@) == Some(s@),
        r is None ==> str_field(*reply, key@) is None,
{
    read_str_field(reply, key)
}

} // verus!
