//! Menus for the JWM and Openbox window managers: application menus sorted
//! by desktop category, and a "places" menu of the user's folders.

pub mod text;
pub mod menu;
pub mod places;
pub mod apps;
