use vstd::prelude::*;
use std::collections::HashMap;
use std::time::SystemTime;
use bson::oid::ObjectId;
use crate::settings::OrdersCancelingSettings;

verus! {

#[verifier::external_type_specification]
#[verifier::external_body]
pub struct ExObjectId(ObjectId);

#[verifier::external_type_specification]
#[verifier::external_body]
pub struct ExSystemTime(SystemTime);

/// The settings as the database stores them, dishes by their ids.
pub struct SettingsDBEntry {
    pub blacklisted_dishes: Vec<ObjectId>,
    pub whitelisted_dishes: Vec<ObjectId>,
    pub blacklisted_allergens: Vec<String>,
    pub strategy: String,
}

/// A user as the database stores it.
pub struct UserDBEntry {
    pub id: String,
    pub settings: SettingsDBEntry,
    pub settings_update_time: SystemTime,
}

/// A user with the settings resolved to dishes.
pub struct UserData {
    pub id: String,
    pub settings: OrdersCancelingSettings,
    pub settings_update_time: SystemTime,
}

/// A canteen as the database stores it, with the ids of the dishes it has served.
pub struct CantineDBEntry {
    pub cantine_id: String,
    pub name: String,
    pub cantine_history: Vec<ObjectId>,
}

/// A request to store the settings.
pub struct SettingsRequestBody {
    pub settings: OrdersCancelingSettings,
    pub settings_update_time: SystemTime,
}

/// A request to order (`status` true) or cancel a dish.
pub struct OrderDishRequestBody {
    pub id: String,
    pub status: bool,
}

/// The settings of the client, by name.
pub struct Config {
    pub settings: HashMap<String, String>,
}

/// The results of a search.
pub struct Query<T> {
    pub _id: String,
    pub results: Vec<T>,
}

/// The query of a search in a canteen's dish history.
pub struct DBHistoryQueryUrlString {
    pub cantine_id: String,
    pub query: String,
}

/// The query of a search in a canteen's dish history, with the list of the
/// user's settings that it concerns.
pub struct AuthorizedDBHistoryQueryUrlString {
    pub cantine_id: String,
    pub query: String,
    pub list: String,
}

/// The query of a search in the user's settings.
pub struct SettingsQueryUrlString {
    pub query: String,
    pub list: String,
}

/// The query of a change of the user's settings.
pub struct SetSettingsUrlString {
    pub action: String,
    pub list: String,
}

} // verus!
