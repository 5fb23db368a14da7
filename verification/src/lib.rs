pub mod text;
pub mod path;
pub mod pin;
pub mod storage;
pub mod registry;
pub mod clock;
pub mod updater;
pub mod pin_actions;
pub mod commands;
pub mod http;
pub mod tray;
pub mod cli;
pub mod client;
pub mod window;
pub mod push;
