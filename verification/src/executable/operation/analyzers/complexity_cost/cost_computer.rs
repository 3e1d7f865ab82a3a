//! What a complexity analysis asks of the schema: the cost of each field definition,
//! and the multipliers a field applies to the fields selected within it.
use vstd::prelude::*;
use crate::document::Field;
use crate::schema::FieldDefinition;

verus! {

/// The multipliers that the fields of a scope are costed with.
pub trait FieldMultipliers: Sized {
    spec fn spec_multiplier_for_field(&self, field: Field) -> usize;

    /// The multipliers of a scope that no field has configured (the root scope).
    spec fn spec_unconfigured() -> Self;

    fn multiplier_for_field(&self, field: &Field) -> (r: usize)
        ensures
            r == self.spec_multiplier_for_field(*field),
    ;

    fn unconfigured() -> (r: Self)
        ensures
            r == Self::spec_unconfigured(),
    ;
}

/// How fields are costed.
pub trait CostComputer: Sized {
    type FieldMultipliers: FieldMultipliers;

    spec fn spec_cost_for_field_definition(&self, field_definition: FieldDefinition) -> usize;

    spec fn spec_field_multipliers(
        &self,
        field_definition: FieldDefinition,
        field: Field,
    ) -> Self::FieldMultipliers;

    fn cost_for_field_definition(&self, field_definition: &FieldDefinition) -> (r: usize)
        ensures
            r == self.spec_cost_for_field_definition(*field_definition),
    ;

    /// The multipliers that `field` applies to the fields selected within it.
    fn field_multipliers(&self, field_definition: &FieldDefinition, field: &Field) -> (r:
        Self::FieldMultipliers)
        ensures
            r == self.spec_field_multipliers(*field_definition, *field),
    ;
}

/// Costs every field 1 and multiplies nothing.
pub struct DefaultCostComputer;

/// Multiplies every field by 1.
pub struct UnitFieldMultipliers;

impl FieldMultipliers for UnitFieldMultipliers {
    open spec fn spec_multiplier_for_field(&self, field: Field) -> usize {
        1
    }

    open spec fn spec_unconfigured() -> Self {
        UnitFieldMultipliers
    }

    fn multiplier_for_field(&self, field: &Field) -> (r: usize) {
        1
    }

    fn unconfigured() -> (r: Self) {
        UnitFieldMultipliers
    }
}

impl CostComputer for DefaultCostComputer {
    type FieldMultipliers = UnitFieldMultipliers;

    open spec fn spec_cost_for_field_definition(&self, field_definition: FieldDefinition) -> usize {
        1
    }

    open spec fn spec_field_multipliers(
        &self,
        field_definition: FieldDefinition,
        field: Field,
    ) -> UnitFieldMultipliers {
        UnitFieldMultipliers
    }

    fn cost_for_field_definition(&self, field_definition: &FieldDefinition) -> (r: usize) {
        1
    }

    fn field_multipliers(&self, field_definition: &FieldDefinition, field: &Field) -> (r:
        UnitFieldMultipliers) {
        UnitFieldMultipliers
    }
}

} // verus!
