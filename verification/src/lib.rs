//! The logic of a graphical front end for the Kakoune editor.

pub mod app;
pub mod canvas;
pub mod config;
pub mod config_value;
pub mod draw;
pub mod face_resolution;
pub mod info;
pub mod input;
pub mod kakoune_process;
pub mod launch;
pub mod layout;
pub mod menu;
pub mod menu_bar;
pub mod messages;
pub mod paths;
pub mod popup;
pub mod render;
pub mod runtime;
pub mod startup;
pub mod strings;
pub mod text;
pub mod title;
pub mod user_keys;
