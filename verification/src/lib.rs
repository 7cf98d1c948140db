pub mod text;
pub mod keyed;
pub mod collect;
pub mod source;
pub mod json;
pub mod entities;
pub mod errors;
pub mod env;
pub mod hasher;
pub mod config;
pub mod presets;
pub mod loader;
pub mod nodes;
pub mod icon;
pub mod system;
