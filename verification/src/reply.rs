use vstd::prelude::*;
use vstd::string::*;

verus! {

/// The reply to a request that the user was not allowed to make.
pub struct Unauthorized {
    pub _t: String,
}

/// The reply to a request that failed, with what went wrong.
pub struct Error<R> {
    pub error: R,
    pub _t: String,
}

/// The reply to a request that succeeded, with its data.
pub struct Succes<T> {
    pub _t: String,
    pub data: T,
}

/// The outcome of a request, tagged for the client.
pub enum RequestResult<T, R> {
    Succes(Succes<T>),
    Error(Error<R>),
    Unauthorized(Unauthorized),
}

impl<R> Error<R> {
    pub fn new(error: R) -> (r: Error<R>)
        ensures
            r.error == error,
            r._t@ == "failure"@,
    {
        Error { error: error, _t: String::from_str("failure") }
    }
}

impl Unauthorized {
    pub fn new() -> (r: Unauthorized)
        ensures
            r._t@ == "unauthorized"@,
    {
        Unauthorized { _t: String::from_str("unauthorized") }
    }
}

impl<T> Succes<T> {
    pub fn new(data: T) -> (r: Succes<T>)
        ensures
            r.data == data,
            r._t@ == "success"@,
    {
        Succes { _t: String::from_str("success"), data: data }
    }
}

/// The message for a request to the database that could not be made.
pub open spec fn database_failure_message() -> Seq<char> {
    "Došlo k chybě serveru při načítání dat z databáze, zkuste to znovu později"@
}

pub fn database_failure() -> (r: String)
    ensures
        r@ == database_failure_message(),
{
    String::from_str("Došlo k chybě serveru při načítání dat z databáze, zkuste to znovu později")
}

/// How the database service answered: with the data (status 200), with a
/// refusal (status 401, where the request can be refused), or with an error
/// message.
pub open spec fn database_reply_kind(status: u16, can_refuse: bool) -> int {
    if status == 200 {
        0
    } else if can_refuse && status == 401 {
        1
    } else {
        2
    }
}

/// The outcome of a request to the database service: its data on status
/// 200, `Unauthorized` on 401 where the request can be refused, and the
/// service's message otherwise.
pub fn database_reply<T>(status: u16, can_refuse: bool, data: Option<T>, message: Option<String>) -> (r: RequestResult<T, String>)
    requires
        status == 200 ==> data is Some,
        database_reply_kind(status, can_refuse) == 2 ==> message is Some,
    ensures
        database_reply_kind(status, can_refuse) == 0 ==> (r matches RequestResult::Succes(s) && s.data == data.unwrap() && s._t@ == "success"@),
        database_reply_kind(status, can_refuse) == 1 ==> (r matches RequestResult::Unauthorized(u) && u._t@ == "unauthorized"@),
        database_reply_kind(status, can_refuse) == 2 ==> (r matches RequestResult::Error(e) && e.error@ == message.unwrap()@ && e._t@ == "failure"@),
{
    if status == 200 {
        RequestResult::Succes(Succes::new(data.unwrap()))
    } else if can_refuse && status == 401 {
        RequestResult::Unauthorized(Unauthorized::new())
    } else {
        RequestResult::Error(Error::new(message.unwrap()))
    }
}

/// The outcome of a request to the database service that could not be made.
pub fn database_unreachable<T>() -> (r: RequestResult<T, String>)
    ensures
        r matches RequestResult::Error(e) && e.error@ == database_failure_message() && e._t@ == "failure"@,
{
    RequestResult::Error(Error::new(database_failure()))
}

} // verus!
