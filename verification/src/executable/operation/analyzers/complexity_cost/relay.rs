//! Costing of Relay connections, configured on field definitions with the directive
//! `@cost(weight: "..", kind: "connection")`: a connection field multiplies the cost
//! of its `edges` and `nodes` by a multiplier derived from its `first` and `last`
//! arguments. Reading a weight as a number and taking the logarithm of a page count
//! are left to the cost computer that uses these pieces.
use vstd::prelude::*;
use crate::common::name_is;
use crate::document::{Field, OperationDefinition};
use crate::executable::operation::analyzers::complexity_cost::cost_computer::FieldMultipliers;
use crate::executable::operation::variable_values::{VariableValues, spec_evaluate_int};
use crate::integer::IntegerValue;
use crate::schema::FieldDefinition;
use crate::value::{Directive, Value, argument_position, directive_position, find_argument, find_directive};

verus! {

/// The string value of the argument `argument` of the first `@cost` directive.
pub open spec fn cost_argument(directives: Seq<Directive>, argument: Seq<char>) -> Option<Seq<char>> {
    match directive_position(directives, "cost"@) {
        Some(i) => match argument_position(directives[i].arguments@, argument) {
            Some(j) => match directives[i].arguments@[j].value {
                Value::String(s) => Some(s@),
                _ => None,
            },
            None => None,
        },
        None => None,
    }
}

pub fn cost_directive_argument<'a>(field_definition: &'a FieldDefinition, argument: &str) -> (r: Option<
    &'a String,
>)
    ensures
        match r {
            Some(s) => cost_argument(field_definition.directives@, argument@) == Some(s@),
            None => cost_argument(field_definition.directives@, argument@) is None,
        },
{
    let directives = &field_definition.directives;
    let i = match find_directive(directives, "cost") {
        Some(i) => i,
        None => return None,
    };
    let arguments = &directives[i].arguments;
    match find_argument(arguments, argument) {
        Some(j) => match &arguments[j].value {
            Value::String(s) => Some(s),
            _ => None,
        },
        None => None,
    }
}

/// Whether the field definition is costed as a connection (`kind: "connection"`).
pub fn is_connection(field_definition: &FieldDefinition) -> (r: bool)
    ensures
        r == (cost_argument(field_definition.directives@, "kind"@) == Some("connection"@)),
{
    match cost_directive_argument(field_definition, "kind") {
        Some(kind) => name_is(kind, "connection"),
        None => false,
    }
}

/// The integer that a sizing argument of a field gives: a literal, or an `Int`
/// variable evaluated against the variable values and its default.
pub open spec fn spec_field_sizing_argument(
    operation_definition: OperationDefinition,
    variable_values: VariableValues,
    field: Field,
    argument: Seq<char>,
) -> Option<IntegerValue> {
    match argument_position(field.arguments@, argument) {
        Some(i) => match field.arguments@[i].value {
            Value::Integer(n) => Some(n),
            Value::Variable(v) => spec_evaluate_int(operation_definition, v@, variable_values),
            _ => None,
        },
        None => None,
    }
}

pub fn field_sizing_argument<'a>(
    operation_definition: &'a OperationDefinition,
    variable_values: &'a VariableValues,
    field: &'a Field,
    argument: &str,
) -> (r: Option<&'a IntegerValue>)
    ensures
        match r {
            Some(n) => spec_field_sizing_argument(
                *operation_definition,
                *variable_values,
                *field,
                argument@,
            ) == Some(*n),
            None => spec_field_sizing_argument(
                *operation_definition,
                *variable_values,
                *field,
                argument@,
            ) is None,
        },
{
    let i = match find_argument(&field.arguments, argument) {
        Some(i) => i,
        None => return None,
    };
    match &field.arguments[i].value {
        Value::Integer(n) => Some(n),
        Value::Variable(v) => operation_definition.evaluate_int(v, variable_values),
        _ => None,
    }
}

/// What a static page size (the value of `first` or `last`) makes of a connection
/// before its multiplier is taken: a size below one gives no pages, a size beyond
/// `u64` gives unboundedly many, and any other size counts as at least two pages.
#[derive(PartialEq, Eq, Structural, Clone, Copy, Debug)]
pub enum PageCount {
    Zero,
    Unbounded,
    Pages(u64),
}

pub open spec fn spec_page_count(size: IntegerValue) -> PageCount {
    if size.spec_is_negative() {
        PageCount::Zero
    } else {
        match size.spec_as_u64() {
            None => PageCount::Unbounded,
            Some(n) => if n == 0 {
                PageCount::Zero
            } else if n < 2 {
                PageCount::Pages(2)
            } else {
                PageCount::Pages(n)
            },
        }
    }
}

/// The page count of a static page size.
pub fn page_count(size: &IntegerValue) -> (r: PageCount)
    requires
        size.wf(),
    ensures
        r == spec_page_count(*size),
{
    if size.is_negative() {
        return PageCount::Zero;
    }
    match size.as_u64() {
        None => PageCount::Unbounded,
        Some(n) => if n == 0 {
            PageCount::Zero
        } else if n < 2 {
            PageCount::Pages(2)
        } else {
            PageCount::Pages(n)
        },
    }
}

/// The multipliers a connection field applies to its `edges` and `nodes`; other
/// fields apply none.
pub struct RelayFieldMultipliers {
    pub connection_multiplier: Option<usize>,
}

impl RelayFieldMultipliers {
    /// The multipliers of a connection, from the multipliers of its `first` and `last`
    /// arguments where present: the larger of them, or 0 when neither is.
    pub fn for_connection(first: Option<usize>, last: Option<usize>) -> (r: Self)
        ensures
            r.connection_multiplier == Some(
                {
                    let f: usize = match first {
                        Some(m) => m,
                        None => 0,
                    };
                    let l: usize = match last {
                        Some(m) => m,
                        None => 0,
                    };
                    if f > l {
                        f
                    } else {
                        l
                    }
                },
            ),
    {
        let f: usize = match first {
            Some(m) => m,
            None => 0,
        };
        let l: usize = match last {
            Some(m) => m,
            None => 0,
        };
        RelayFieldMultipliers { connection_multiplier: Some(if f > l { f } else { l }) }
    }
}

impl FieldMultipliers for RelayFieldMultipliers {
    open spec fn spec_multiplier_for_field(&self, field: Field) -> usize {
        match self.connection_multiplier {
            Some(m) => if field.name@ == "edges"@ || field.name@ == "nodes"@ {
                m
            } else {
                1
            },
            None => 1,
        }
    }

    open spec fn spec_unconfigured() -> Self {
        RelayFieldMultipliers { connection_multiplier: None }
    }

    fn multiplier_for_field(&self, field: &Field) -> (r: usize) {
        match self.connection_multiplier {
            Some(m) => if name_is(&field.name, "edges") || name_is(&field.name, "nodes") {
                m
            } else {
                1
            },
            None => 1,
        }
    }

    fn unconfigured() -> (r: Self) {
        RelayFieldMultipliers { connection_multiplier: None }
    }
}

} // verus!
