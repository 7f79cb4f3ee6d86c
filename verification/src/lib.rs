//! Verified logic of a project and workspace picker for the Herdr terminal
//! multiplexer.

pub mod cli;
pub mod client_laws;
pub mod command;
pub mod config;
pub mod decision_laws;
pub mod discovery_laws;
pub mod driver;
pub mod fuzzy;
pub mod herdr;
pub mod jump_focus;
pub mod jump_laws;
pub mod jump_list;
pub mod jump_pane;
pub mod jump_rank_laws;
pub mod jump_row_laws;
pub mod jump_session;
pub mod key_laws;
pub mod lists;
pub mod look_laws;
pub mod model;
pub mod model_laws;
pub mod order;
pub mod order_laws;
pub mod paths;
pub mod picker;
pub mod picker_laws;
pub mod refresh;
pub mod refresh_laws;
pub mod registry;
pub mod registry_laws;
pub mod render;
pub mod row_laws;
pub mod safety_laws;
pub mod screen;
pub mod search;
pub mod search_laws;
pub mod search_order_laws;
pub mod session;
pub mod sources;
pub mod style;
pub mod text;
pub mod text_laws;
pub mod width;
pub mod wire;
