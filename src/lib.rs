//! Player-facing logic of a small first-person office game: the in-game
//! terminal (its command language and how typed keys change its screen) and
//! the hint line that tells the player what the mouse buttons do.

pub mod text;
pub mod terminal;
pub mod ui;
