//! The logic behind the settings screen.
pub mod data;
pub mod validation;
pub mod theme;
pub mod management;
pub mod names;
pub mod apps;
pub mod protocol;
