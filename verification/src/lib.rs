pub mod common;
pub mod names;
pub mod integer;
pub mod value;
pub mod report;
pub mod schema;
pub mod document;
pub mod executable;
pub mod definition;
