//! A registry of entity systems that a host program shares with an embedded
//! Lua environment.
//!
//! An entity is an integer id. Its data lives in named systems, one
//! component per system: native systems, which are compiled in and verified
//! against [`system::NativeSystem`], and script systems, which are tables of
//! the scripting environment. [`world::World`] issues the ids, holds the
//! systems and offers the same calls on both kinds; components cross
//! between them as [`value::Dynamic`] values.

pub mod components;
pub mod convert;
pub mod lua;
pub mod model;
pub mod render;
pub mod schema;
pub mod script;
pub mod store;
pub mod system;
pub mod terminal;
pub mod value;
pub mod world;
