pub mod calendar;
pub mod commands;
pub mod consts;
pub mod diagnostics;
pub mod discovery;
pub mod encoding;
pub mod error;
pub mod exif;
pub mod identity;
pub mod keymap;
pub mod laws;
pub mod net;
pub mod order;
pub mod pages;
pub mod pairing;
pub mod partials;
pub mod paths;
pub mod percent;
pub mod placement;
pub mod protocol;
pub mod sanitize;
pub mod sending;
pub mod settings;
pub mod share;
pub mod share_links;
pub mod startup;
pub mod state;
pub mod text;
pub mod time;
