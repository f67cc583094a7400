pub mod text;
pub mod chrome;
pub mod groups;
pub mod wildcard;
pub mod cli;
pub mod platform;
pub mod selection;
pub mod export;
pub mod tui;
pub mod events;
pub mod screen;
