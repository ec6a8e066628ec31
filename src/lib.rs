//! Name resolution for a Python-like language: symbols, scopes, the
//! per-block binder and the diagnostics that thread through them.
pub mod error;
pub mod resolver;
pub mod scope;
pub mod symbol;
pub mod syntax;
