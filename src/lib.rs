//! Session and project picker: project discovery over a two-level host scan,
//! fuzzy-filtered selectable lists, configuration parsing and key routing.

pub mod config;
pub mod discovery;
pub mod fuzzy;
pub mod lists;
pub mod path;
pub mod picker;
pub mod select;
pub mod sesslist;
