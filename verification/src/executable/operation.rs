pub mod analyzer;
pub mod analyzers;
pub mod argument_steps;
pub mod depth;
pub mod ordering;
pub mod matching;
pub mod nesting;
pub mod orchestrator;
pub mod spreads;
pub mod variable_values;
