//! Validation of schema definitions: rules that each report the errors they find.
pub mod error;
pub mod message;
pub mod report;
pub mod rules;
pub mod validator;
