use vstd::prelude::*;

pub mod action_executor;
pub mod action_registry;
pub mod clipboard_history;
pub mod clock;
pub mod config;
pub mod contract;
pub mod core_service;
pub mod discovery;
pub mod config_template;
pub mod hotkey;
pub mod hotkey_runtime;
pub mod logging;
pub mod model;
pub mod overlay_search;
pub mod overlay_session;
pub mod overlay_flow;
pub mod overlay_state;
pub mod overlay_view;
pub mod plugin_sdk;
pub mod query_dsl;
pub mod query_profile;
pub mod runtime;
pub mod search;
pub mod selection;
pub mod settings;
pub mod settings_window;
pub mod startup;
pub mod text;
pub mod transport;
pub mod uninstall_registry;

verus! {

} // verus!
