//! A rule-driven scanner for decompiled Android sources: a catalog of regular-expression
//! rules, loaded from JSON, is evaluated on each source file of a project and yields
//! findings with their file, lines and severity.
pub mod text;
pub mod pattern;
pub mod json;
pub mod catalog;
pub mod engine;
pub mod walker;
pub mod laws;
