//! Rule-based routing of file associations and URL protocols.
pub mod text;
pub mod name_map;
pub mod config;
pub mod env;
pub mod glob;
pub mod target;
pub mod engine;
pub mod settings;
pub mod picker;
pub mod commands;
pub mod icon;
pub mod registry;
pub mod logging;
pub mod registration;
pub mod unregistration;
pub mod reg_model;
