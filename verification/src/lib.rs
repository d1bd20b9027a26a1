pub mod text;
pub mod date;
pub mod date_order;
pub mod json;
pub mod entries;
pub mod menu;
pub mod settings;
pub mod cantine;
pub mod reply;
pub mod requests;
pub mod server;
pub mod scrape;
pub mod data;
pub mod laws;
