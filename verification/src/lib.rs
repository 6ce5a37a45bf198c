//! A TOML document resource for Godot: the document state, the mapping
//! between TOML values and Godot variants, and the decoding of Godot types
//! written as text inside TOML strings.

pub mod assoc;
pub mod variant;
pub mod toml_value;
pub mod convert;
pub mod document;
pub mod pattern;
pub mod godot_types;
