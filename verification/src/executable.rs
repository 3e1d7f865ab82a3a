pub mod document;
pub mod operation;
