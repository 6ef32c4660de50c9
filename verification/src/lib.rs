//! Resumark's renderer-independent resume model, its Markdown analyzer,
//! portable theme files and the plain messages exchanged by its front ends.
pub mod text;
pub mod diagnostic;
pub mod model;
pub mod settings;
pub mod events;
pub mod markdown;
pub mod markdown_laws;
pub mod theme;
pub mod render;
pub mod cli;
pub mod web;
pub mod parser;
pub mod link_laws;
pub mod range_laws;
