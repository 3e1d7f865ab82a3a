//! Validation of executable documents: rules that each report the errors they find.
pub mod directive_uses;
pub mod error;
pub mod message;
pub mod report;
pub mod rules;
pub mod selection_sets;
pub mod traversal;
pub mod validator;
