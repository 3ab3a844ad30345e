//! Loft: the logic behind a small desktop console — environment variables,
//! portable item paths, listening ports, Start-menu shortcuts and the text
//! icons of the system tray.
pub mod diag;
pub mod elevate;
pub mod env;
pub mod files;
pub mod icons;
pub mod json;
pub mod launcher;
pub mod monitor;
pub mod numfmt;
pub mod path_list;
pub mod path_resolve;
pub mod ports;
pub mod paths;
pub mod registry;
pub mod settings;
pub mod sorting;
pub mod text;
pub mod tray;
