pub mod apply;
pub mod autostart;
pub mod binary;
pub mod daemon;
pub mod decimal;
pub mod display;
pub mod json;
pub mod models;
pub mod platform;
pub mod profile;
pub mod query;
pub mod readings;
pub mod recovery;
pub mod rpc;
pub mod settings;
pub mod state;
pub mod supervisor;
pub mod text;
pub mod time;
pub mod ui;
pub mod validation;
pub mod watch;
