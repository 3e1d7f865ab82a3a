//! Variable values supplied with a request, and the evaluation of variables against
//! them and against the defaults of the operation's variable definitions.
use vstd::prelude::*;
use crate::common::{first_index, lemma_first_index_is, lemma_first_index_none, name_is};
use crate::document::{OperationDefinition, VariableDefinition};
use crate::integer::IntegerValue;
use crate::schema::TypeReference;
use crate::value::{Value, spec_as_boolean, spec_as_integer};

verus! {

/// The variable values of a request, as key/value pairs in their given order.
pub struct VariableValues {
    pub entries: Vec<(String, Value)>,
}

impl VariableValues {
    pub open spec fn entry_index(&self, key: Seq<char>) -> Option<int> {
        first_index(self.entries@, |e: (String, Value)| e.0@ == key)
    }

    /// The value of the first entry with the given key.
    pub open spec fn spec_get(&self, key: Seq<char>) -> Option<Value> {
        match self.entry_index(key) {
            Some(i) => Some(self.entries@[i].1),
            None => None,
        }
    }

    pub fn get(&self, key: &String) -> (r: Option<&Value>)
        ensures
            match r {
                Some(v) => self.spec_get(key@) == Some(*v),
                None => self.spec_get(key@) is None,
            },
    {
        let mut i: usize = 0;
        while i < self.entries.len()
            invariant
                i <= self.entries.len(),
                forall|j: int|
                    0 <= j < i ==> !((|e: (String, Value)| e.0@ == key@)(#[trigger] self.entries@[j])),
            decreases self.entries.len() - i,
        {
            if self.entries[i].0 == *key {
                proof { lemma_first_index_is(self.entries@, |e: (String, Value)| e.0@ == key@, i as int); }
                return Some(&self.entries[i].1);
            }
            i += 1;
        }
        proof { lemma_first_index_none(self.entries@, |e: (String, Value)| e.0@ == key@); }
        None
    }
}

/// Whether a variable type is the nullable or non-null named type `name`
/// (a list type never is).
pub open spec fn is_named_type(t: TypeReference, name: Seq<char>) -> bool {
    match t {
        TypeReference::Named { name: n, .. } => n@ == name,
        _ => false,
    }
}

/// The first variable definition of the operation for `variable` whose type is the
/// named type `ty_name`.
pub open spec fn typed_variable_index(
    op: OperationDefinition,
    variable: Seq<char>,
    ty_name: Seq<char>,
) -> Option<int> {
    first_index(
        op.variable_definitions@,
        |vd: VariableDefinition| vd.variable@ == variable && is_named_type(vd.type_ref, ty_name),
    )
}

/// The value a `Boolean` variable takes: the supplied value if there is one, else the
/// default of its definition; `None` when either is not a boolean, or when the
/// operation defines no `Boolean` variable of that name.
pub open spec fn spec_evaluate_bool(
    op: OperationDefinition,
    variable: Seq<char>,
    variable_values: VariableValues,
) -> Option<bool> {
    match typed_variable_index(op, variable, "Boolean"@) {
        None => None,
        Some(i) => match variable_values.spec_get(variable) {
            Some(v) => spec_as_boolean(v),
            None => match op.variable_definitions@[i].default_value {
                Some(d) => spec_as_boolean(d),
                None => None,
            },
        },
    }
}

/// The same for an `Int` variable and integer values.
pub open spec fn spec_evaluate_int(
    op: OperationDefinition,
    variable: Seq<char>,
    variable_values: VariableValues,
) -> Option<IntegerValue> {
    match typed_variable_index(op, variable, "Int"@) {
        None => None,
        Some(i) => match variable_values.spec_get(variable) {
            Some(v) => spec_as_integer(v),
            None => match op.variable_definitions@[i].default_value {
                Some(d) => spec_as_integer(d),
                None => None,
            },
        },
    }
}

fn find_typed_variable(op: &OperationDefinition, variable: &String, ty_name: &str) -> (r: Option<
    usize,
>)
    ensures
        r matches Some(i) ==> typed_variable_index(*op, variable@, ty_name@) == Some(i as int)
            && i < op.variable_definitions@.len(),
        r is None ==> typed_variable_index(*op, variable@, ty_name@) is None,
{
    let ghost p = |vd: VariableDefinition|
        vd.variable@ == variable@ && is_named_type(vd.type_ref, ty_name@);
    let mut i: usize = 0;
    while i < op.variable_definitions.len()
        invariant
            i <= op.variable_definitions.len(),
            p == (|vd: VariableDefinition|
                vd.variable@ == variable@ && is_named_type(vd.type_ref, ty_name@)),
            forall|j: int| 0 <= j < i ==> !p(#[trigger] op.variable_definitions@[j]),
        decreases op.variable_definitions.len() - i,
    {
        let vd = &op.variable_definitions[i];
        let named = match &vd.type_ref {
            TypeReference::Named { name, .. } => name_is(name, ty_name),
            _ => false,
        };
        if vd.variable == *variable && named {
            proof { lemma_first_index_is(op.variable_definitions@, p, i as int); }
            return Some(i);
        }
        i += 1;
    }
    proof { lemma_first_index_none(op.variable_definitions@, p); }
    None
}

impl OperationDefinition {
    /// Evaluates a `Boolean` variable of this operation.
    pub fn evaluate_bool(&self, variable: &String, variable_values: &VariableValues) -> (r: Option<
        bool,
    >)
        ensures
            r == spec_evaluate_bool(*self, variable@, *variable_values),
    {
        let i = match find_typed_variable(self, variable, "Boolean") {
            Some(i) => i,
            None => return None,
        };
        match variable_values.get(variable) {
            Some(v) => v.as_boolean(),
            None => match &self.variable_definitions[i].default_value {
                Some(d) => d.as_boolean(),
                None => None,
            },
        }
    }

    /// Resolves an `Int` variable or its default without enforcing the range of `Int`.
    pub fn evaluate_int<'a>(&'a self, variable: &String, variable_values: &'a VariableValues) -> (r:
        Option<&'a IntegerValue>)
        ensures
            match r {
                Some(v) => spec_evaluate_int(*self, variable@, *variable_values) == Some(*v),
                None => spec_evaluate_int(*self, variable@, *variable_values) is None,
            },
    {
        let i = match find_typed_variable(self, variable, "Int") {
            Some(i) => i,
            None => return None,
        };
        match variable_values.get(variable) {
            Some(v) => match v {
                Value::Integer(n) => Some(n),
                _ => None,
            },
            None => match &self.variable_definitions[i].default_value {
                Some(Value::Integer(n)) => Some(n),
                _ => None,
            },
        }
    }
}

} // verus!
