//! Verified state, text and diff logic of the GitSpark desktop Git client.
pub mod models;
pub mod ui_state;
pub mod domain_state;
pub mod text;
pub mod diff_model;
pub mod diff_text;
pub mod app;
pub mod text_edit;
pub mod labels;
pub mod top_app;
pub mod components;
pub mod syntax;
pub mod paths;
