//! Reading CapCut desktop projects: locating project folders, checking that a
//! requested project lies directly inside the projects root, and turning the
//! caption tracks of a `draft_content.json` document into a sorted transcript.
//!
//! Everything here computes on plain values; reading directories and files is
//! left to the caller, which hands the library what it observed.

pub mod text;
pub mod json;
pub mod fields;
pub mod content;
pub mod inspect;
pub mod transcript;
pub mod sort;
pub mod project;
