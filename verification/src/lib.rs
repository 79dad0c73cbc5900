//! Entity Component System for Frogbyte.
//!
//! Generational entity identity and allocation ([`entity`]), type-erased
//! component storage ([`component`]) and archetype tables that keep entity
//! rows and component rows aligned ([`archetype`]).
pub mod archetype;
pub mod component;
pub mod entity;
pub mod typed_storage;
