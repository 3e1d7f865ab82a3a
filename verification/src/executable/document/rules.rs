pub mod all_variable_usages_allowed;
pub mod all_variables_used;
pub mod argument_uniqueness;
pub mod directives_are_defined;
pub mod directives_are_in_valid_locations;
pub mod field_selection_merging;
pub mod field_selections;
pub mod fragment_spread_is_possible;
pub mod fragment_spread_target_defined;
pub mod fragment_spreads_must_not_form_cycles;
pub mod fragments_must_be_used;
pub mod lone_anonymous_operation;
pub mod named_operation_name_uniqueness;
pub mod subscription_operation_single_root_field;
pub mod variable_uniqueness;
