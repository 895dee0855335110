//! The rules of a planetwars lobby server.

pub mod api;
pub mod connection_handler;
pub mod connection_laws;
pub mod embedded;
pub mod error;
pub mod event;
pub mod game_manager;
pub mod lobby;
pub mod lobby_laws;
pub mod lobby_manager;
pub mod match_log;
pub mod member_laws;
pub mod membership;
pub mod planetwars;
pub mod proposal_laws;
pub mod proposals;
pub mod pw_maps;
pub mod request_laws;
pub mod server_laws;
pub mod table;
pub mod text;
pub mod token;
pub mod websocket;
