pub mod enum_value_definition_uniqueness;
pub mod input_field_definition_uniqueness;
pub mod input_object_circular_references;
