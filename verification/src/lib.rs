//! Resolves the workshop mods of a Project Zomboid server from Steam
//! collections and renders them as the `WorkshopItems`, `Mods` and `Map`
//! lines of the server configuration.

pub mod collections;
pub mod config;
pub mod description;
pub mod items;
pub mod pattern;
pub mod resolver;
pub mod server_config;
pub mod steam_api_client;
pub mod steam_api_client_schemes;
pub mod text;
pub mod tokens;
pub mod zomboid_utils;
