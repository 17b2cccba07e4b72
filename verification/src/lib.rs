//! Zsh completion scripts for a command-line interface described by [`model::App`].
pub mod args;
pub mod escape;
pub mod model;
pub mod order;
pub mod text;
pub mod zsh;
