//! A small task tracker: selectors, a task store with its operations,
//! the repository over a pluggable storage, command dispatch and output
//! rendering, the wording of errors, and the checks of the self-update flow.
pub mod commands;
pub mod laws;
pub mod messages;
pub mod model;
pub mod paths;
pub mod render;
pub mod repository;
pub mod selector;
pub mod sort;
pub mod store;
pub mod update;
