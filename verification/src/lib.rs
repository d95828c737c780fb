pub mod text;
pub mod error;
pub mod paths;
pub mod android;
pub mod settings;
pub mod protocol;
pub mod history;
pub mod registry;
pub mod state;
pub mod transfer;
pub mod discovery;
pub mod commands;
