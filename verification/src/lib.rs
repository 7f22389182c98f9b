//! The rules and the screens of a guessing game played over a network.

pub mod app;
pub mod app_laws;
pub mod area;
pub mod frame;
pub mod frame_laws;
pub mod game;
pub mod host;
pub mod host_laws;
pub mod input;
pub mod notes;
pub mod notes_laws;
pub mod player_laws;
pub mod rules_laws;
pub mod screen;
pub mod screen_laws;
pub mod startup;
pub mod startup_laws;
pub mod style;
pub mod text;
pub mod text_laws;
