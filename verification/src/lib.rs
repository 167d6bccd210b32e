pub mod action;
pub mod agent;
pub mod analyzer;
pub mod chat;
pub mod chat_plan;
pub mod checks;
pub mod commands;
pub mod cursor;
pub mod engine;
pub mod error;
pub mod fields;
pub mod filter;
pub mod history;
pub mod interp;
pub mod journal;
pub mod laws;
pub mod lists;
pub mod math;
pub mod menu;
pub mod model;
pub mod parser;
pub mod patterns;
pub mod preview;
pub mod reach;
pub mod save;
pub mod screen;
pub mod speech;
pub mod state;
pub mod text;
pub mod ui;
pub mod value;
pub mod wildcard;
