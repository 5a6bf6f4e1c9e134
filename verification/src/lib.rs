use vstd::prelude::*;

pub mod random;
pub mod time;
pub mod item;
pub mod inventory;
pub mod adventurer;
pub mod crafting;
pub mod refining;
pub mod gathering;
pub mod tavern;
pub mod workshop;
pub mod ui;
pub mod gear;
pub mod text;
pub mod summary;
pub mod input;
pub mod views;
pub mod party;
pub mod shell;
pub mod art;
pub mod picture;
pub mod catalog;
