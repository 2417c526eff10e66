//! Wikibase entities, claims and snaks, read from a JSON model of the Wikibase data format.
pub mod ids;
pub mod text;
pub mod json_value;
pub mod time;
pub mod entity;
pub mod laws;
