pub mod text;
pub mod dict;
pub mod player;
pub mod rule;
pub mod pmove;
pub mod gamestate;
pub mod piece;
pub mod channel;
pub mod board;
pub mod ids;
pub mod layout;
pub mod json;
pub mod eval;
pub mod places;
pub mod calls;
pub mod catalog;
pub mod ruletree;
pub mod show;
pub mod game;
pub mod creator;
pub mod api;
pub mod rules;
pub mod play;
