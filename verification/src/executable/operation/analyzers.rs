pub mod input_size;
pub mod query_depth;
pub mod deprecation;
pub mod complexity_cost;
