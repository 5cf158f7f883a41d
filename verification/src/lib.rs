//! Verified core of a language server for Minecraft GLSL shader packs.
//!
//! The crate holds the logic that decides what the server answers: the
//! syntax-tree model of a shader file, hover labels and hover text, the
//! resolution of definitions and references and the query patterns that
//! describe them, the open files and the shader packs of the workspace
//! folders, progress tokens, trace identifiers, log-level selection and the
//! error codes the server reports.

pub mod edit;
pub mod error;
pub mod logging;
pub mod parse;
pub mod position;
pub mod progress;
pub mod server;
pub mod shader;
pub mod store;
pub mod syntax;
pub mod text;
pub mod tree_parser;
pub mod workspace;
