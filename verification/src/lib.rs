//! Verified core of a manga reader: library organisation, reader navigation,
//! gamepad bindings, page padding, and the text heuristics used on import.

pub mod chapter_number;
pub mod importer;
pub mod input;
pub mod models;
pub mod navigation;
pub mod text;
pub mod ordering;
pub mod padding;
pub mod proxy;
pub mod reader_config;
pub mod scroll;
pub mod shelf;
pub mod startup;
pub mod sync;
pub mod tankobon;
pub mod zoom;
