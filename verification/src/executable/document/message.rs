//! The text that describes each validation error to the author of the document.
use vstd::prelude::*;
use crate::executable::document::error::Error;
use crate::schema::{DirectiveLocation, TypeReference};

verus! {

/// `"!"` after a non-null type, nothing otherwise.
pub open spec fn required_mark(required: bool) -> Seq<char> {
    if required { "!"@ } else { Seq::empty() }
}

/// A type reference as GraphQL writes it: `Int`, `[Int!]!`.
pub open spec fn spec_display_name(t: TypeReference) -> Seq<char>
    decreases t,
{
    match t {
        TypeReference::Named { name, required } => name@ + required_mark(required),
        TypeReference::List { inner, required } => "["@ + spec_display_name(*inner) + "]"@
            + required_mark(required),
    }
}

/// A type reference as GraphQL writes it.
pub fn display_name(t: &TypeReference) -> (r: String)
    ensures
        r@ == spec_display_name(*t),
    decreases t,
{
    let (mut r, required) = match t {
        TypeReference::Named { name, required } => (name.clone(), *required),
        TypeReference::List { inner, required } => {
            let mut r = String::from_str("[");
            let inner_name = display_name(inner);
            r.append(inner_name.as_str());
            r.append("]");
            (r, *required)
        },
    };
    if required {
        r.append("!");
    } else {
        proof { assert(r@ + required_mark(required) =~= r@); }
    }
    r
}

/// The name GraphQL gives a directive location.
pub open spec fn spec_location_name(l: DirectiveLocation) -> Seq<char> {
    match l {
        DirectiveLocation::Query => "QUERY"@,
        DirectiveLocation::Mutation => "MUTATION"@,
        DirectiveLocation::Subscription => "SUBSCRIPTION"@,
        DirectiveLocation::Field => "FIELD"@,
        DirectiveLocation::FragmentDefinition => "FRAGMENT_DEFINITION"@,
        DirectiveLocation::FragmentSpread => "FRAGMENT_SPREAD"@,
        DirectiveLocation::InlineFragment => "INLINE_FRAGMENT"@,
        DirectiveLocation::VariableDefinition => "VARIABLE_DEFINITION"@,
        DirectiveLocation::Schema => "SCHEMA"@,
        DirectiveLocation::Scalar => "SCALAR"@,
        DirectiveLocation::Object => "OBJECT"@,
        DirectiveLocation::FieldDefinition => "FIELD_DEFINITION"@,
        DirectiveLocation::ArgumentDefinition => "ARGUMENT_DEFINITION"@,
        DirectiveLocation::Interface => "INTERFACE"@,
        DirectiveLocation::Union => "UNION"@,
        DirectiveLocation::Enum => "ENUM"@,
        DirectiveLocation::EnumValue => "ENUM_VALUE"@,
        DirectiveLocation::InputObject => "INPUT_OBJECT"@,
        DirectiveLocation::InputFieldDefinition => "INPUT_FIELD_DEFINITION"@,
    }
}

/// The name GraphQL gives a directive location.
pub fn location_name(l: DirectiveLocation) -> (r: &'static str)
    ensures
        r@ == spec_location_name(l),
{
    match l {
        DirectiveLocation::Query => "QUERY",
        DirectiveLocation::Mutation => "MUTATION",
        DirectiveLocation::Subscription => "SUBSCRIPTION",
        DirectiveLocation::Field => "FIELD",
        DirectiveLocation::FragmentDefinition => "FRAGMENT_DEFINITION",
        DirectiveLocation::FragmentSpread => "FRAGMENT_SPREAD",
        DirectiveLocation::InlineFragment => "INLINE_FRAGMENT",
        DirectiveLocation::VariableDefinition => "VARIABLE_DEFINITION",
        DirectiveLocation::Schema => "SCHEMA",
        DirectiveLocation::Scalar => "SCALAR",
        DirectiveLocation::Object => "OBJECT",
        DirectiveLocation::FieldDefinition => "FIELD_DEFINITION",
        DirectiveLocation::ArgumentDefinition => "ARGUMENT_DEFINITION",
        DirectiveLocation::Interface => "INTERFACE",
        DirectiveLocation::Union => "UNION",
        DirectiveLocation::Enum => "ENUM",
        DirectiveLocation::EnumValue => "ENUM_VALUE",
        DirectiveLocation::InputObject => "INPUT_OBJECT",
        DirectiveLocation::InputFieldDefinition => "INPUT_FIELD_DEFINITION",
    }
}

/// The names of the locations, separated by `, `.
pub open spec fn locations_text(ls: Seq<DirectiveLocation>) -> Seq<char>
    decreases ls.len(),
{
    if ls.len() == 0 {
        Seq::empty()
    } else if ls.len() == 1 {
        spec_location_name(ls[0])
    } else {
        locations_text(ls.drop_last()) + ", "@ + spec_location_name(ls.last())
    }
}

fn push_locations(r: &mut String, ls: &Vec<DirectiveLocation>)
    ensures
        final(r)@ == old(r)@ + locations_text(ls@),
{
    let ghost start = r@;
    let mut i: usize = 0;
    while i < ls.len()
        invariant
            i <= ls.len(),
            r@ == start + locations_text(ls@.take(i as int)),
        decreases ls.len() - i,
    {
        proof {
            assert(ls@.take(i + 1).drop_last() =~= ls@.take(i as int));
            assert(ls@.take(i + 1).last() == ls@[i as int]);
        }
        if i > 0 {
            r.append(", ");
        } else {
            assert(ls@.take(1) =~= seq![ls@[0]]);
        }
        r.append(location_name(ls[i]));
        i += 1;
        proof {
            if i == 1 {
                assert(locations_text(ls@.take(1)) == spec_location_name(ls@[0]));
                assert(r@ =~= start + locations_text(ls@.take(i as int)));
            } else {
                assert(r@ =~= start + locations_text(ls@.take(i as int)));
            }
        }
    }
    proof { assert(ls@.take(i as int) =~= ls@); }
}

/// `prefix`, then `name` in backquotes, then `suffix`.
pub open spec fn quoted(prefix: Seq<char>, name: Seq<char>, suffix: Seq<char>) -> Seq<char> {
    prefix + "`"@ + name + "`"@ + suffix
}

fn push_quoted(r: &mut String, name: &str)
    ensures
        final(r)@ == old(r)@ + "`"@ + name@ + "`"@,
{
    r.append("`");
    r.append(name);
    r.append("`");
}

impl<'a> Error<'a> {
    /// The message that describes the error.
    pub open spec fn spec_message(&self) -> Seq<char> {
        match self {
            Error::NonUniqueOperationNames { name, .. } => quoted(
                "Multiple operation definitions named "@,
                name@,
                Seq::empty(),
            ),
            Error::NotLoneAnonymousOperation { .. } => "Anonymous operation not lone operation in document"@,
            Error::SubscriptionRootNotSingleField { .. } => "Subscription root is not a single field"@,
            Error::FieldDoesNotExistOnType { field, type_definition } => quoted(
                "Field "@,
                field.name@,
                quoted(" does not exist on type "@, type_definition.name@, Seq::empty()),
            ),
            Error::FragmentDefinitionUnused { fragment_definition } => quoted(
                "Fragment definition "@,
                fragment_definition.name@,
                " is unused"@,
            ),
            Error::FragmentSpreadTargetUndefined { fragment_spread } => quoted(
                "No fragment defined with name "@,
                fragment_spread.name@,
                Seq::empty(),
            ),
            Error::FragmentSpreadCycle { fragment_definition, .. } => quoted(
                "Cycle detected in fragment "@,
                fragment_definition.name@,
                Seq::empty(),
            ),
            Error::NonUniqueVariableDefinitionNames { name, .. } => "Multiple variable definitions named `$"@
                + name@ + "`"@,
            Error::VariableDefinitionUnused { variable_definition } => "Variable definition `$"@
                + variable_definition.variable@ + "` is unused"@,
            Error::InvalidVariableUsage { variable, variable_type, location_type } => "Variable `$"@
                + variable@ + "` of type "@ + spec_display_name(**variable_type)
                + " cannot be used where a value of type "@ + spec_display_name(**location_type)
                + " is expected"@,
            Error::InvalidOneOfVariableUsage { variable, variable_type, parent_type_name } => "Variable `$"@
                + variable@ + "` of type "@ + spec_display_name(**variable_type)
                + " must be non-nullable to be used for a field of OneOf input object "@
                + parent_type_name@,
            Error::FieldSelectionsDoNotMergeIncompatibleTypes { .. } => "Fields in selection set do not merge due to incompatible types"@,
            Error::FieldSelectionsDoNotMergeDifferingNames { .. } => "Fields in selection set do not merge due to unequal field names"@,
            Error::FieldSelectionsDoNotMergeDifferingArguments { .. } => "Fields in selection set do not merge due to unequal arguments"@,
            Error::FragmentSpreadIsNotPossible { fragment_spread, parent_type } => quoted(
                "Fragment "@,
                fragment_spread.name@,
                " cannot be spread for type "@ + parent_type.name@,
            ),
            Error::InlineFragmentSpreadIsNotPossible { inline_fragment, parent_type } => "Fragment targeting type "@
                + match inline_fragment.type_condition {
                Some(t) => t@,
                None => parent_type.name@,
            } + " cannot be spread for type "@ + parent_type.name@,
            Error::DirectiveDoesNotExist { directive } => "No directive definition with name `@"@
                + directive.name@ + "`"@,
            Error::DirectiveInInvalidLocation { directive, directive_definition, location } => "Directive @"@
                + directive.name@ + " cannot be used at location "@ + spec_location_name(*location)
                + ". It is only allowed at the following locations: "@ + locations_text(
                directive_definition.locations@,
            ),
            Error::NonUniqueArgumentNames { name, .. } => quoted(
                "Multiple arguments with name "@,
                name@,
                Seq::empty(),
            ),
        }
    }

    /// The message that describes the error.
    pub fn message(&self) -> (r: String)
        ensures
            r@ == self.spec_message(),
    {
        match self {
            Error::NonUniqueOperationNames { name, .. } => {
                let mut r = String::from_str("Multiple operation definitions named ");
                push_quoted(&mut r, name.as_str());
                proof { assert(r@ =~= self.spec_message()); }
                r
            },
            Error::NotLoneAnonymousOperation { .. } => String::from_str(
                "Anonymous operation not lone operation in document",
            ),
            Error::SubscriptionRootNotSingleField { .. } => String::from_str(
                "Subscription root is not a single field",
            ),
            Error::FieldDoesNotExistOnType { field, type_definition } => {
                let mut r = String::from_str("Field ");
                push_quoted(&mut r, field.name.as_str());
                r.append(" does not exist on type ");
                push_quoted(&mut r, type_definition.name.as_str());
                proof { assert(r@ =~= self.spec_message()); }
                r
            },
            Error::FragmentDefinitionUnused { fragment_definition } => {
                let mut r = String::from_str("Fragment definition ");
                push_quoted(&mut r, fragment_definition.name.as_str());
                r.append(" is unused");
                proof { assert(r@ =~= self.spec_message()); }
                r
            },
            Error::FragmentSpreadTargetUndefined { fragment_spread } => {
                let mut r = String::from_str("No fragment defined with name ");
                push_quoted(&mut r, fragment_spread.name.as_str());
                proof { assert(r@ =~= self.spec_message()); }
                r
            },
            Error::FragmentSpreadCycle { fragment_definition, .. } => {
                let mut r = String::from_str("Cycle detected in fragment ");
                push_quoted(&mut r, fragment_definition.name.as_str());
                proof { assert(r@ =~= self.spec_message()); }
                r
            },
            Error::NonUniqueVariableDefinitionNames { name, .. } => {
                let mut r = String::from_str("Multiple variable definitions named `$");
                r.append(name.as_str());
                r.append("`");
                proof { assert(r@ =~= self.spec_message()); }
                r
            },
            Error::VariableDefinitionUnused { variable_definition } => {
                let mut r = String::from_str("Variable definition `$");
                r.append(variable_definition.variable.as_str());
                r.append("` is unused");
                proof { assert(r@ =~= self.spec_message()); }
                r
            },
            Error::InvalidVariableUsage { variable, variable_type, location_type } => {
                let mut r = String::from_str("Variable `$");
                r.append(variable.as_str());
                r.append("` of type ");
                let v = display_name(variable_type);
                r.append(v.as_str());
                r.append(" cannot be used where a value of type ");
                let l = display_name(location_type);
                r.append(l.as_str());
                r.append(" is expected");
                proof { assert(r@ =~= self.spec_message()); }
                r
            },
            Error::InvalidOneOfVariableUsage { variable, variable_type, parent_type_name } => {
                let mut r = String::from_str("Variable `$");
                r.append(variable.as_str());
                r.append("` of type ");
                let v = display_name(variable_type);
                r.append(v.as_str());
                r.append(" must be non-nullable to be used for a field of OneOf input object ");
                r.append(parent_type_name.as_str());
                proof { assert(r@ =~= self.spec_message()); }
                r
            },
            Error::FieldSelectionsDoNotMergeIncompatibleTypes { .. } => String::from_str(
                "Fields in selection set do not merge due to incompatible types",
            ),
            Error::FieldSelectionsDoNotMergeDifferingNames { .. } => String::from_str(
                "Fields in selection set do not merge due to unequal field names",
            ),
            Error::FieldSelectionsDoNotMergeDifferingArguments { .. } => String::from_str(
                "Fields in selection set do not merge due to unequal arguments",
            ),
            Error::FragmentSpreadIsNotPossible { fragment_spread, parent_type } => {
                let mut r = String::from_str("Fragment ");
                push_quoted(&mut r, fragment_spread.name.as_str());
                r.append(" cannot be spread for type ");
                r.append(parent_type.name.as_str());
                proof { assert(r@ =~= self.spec_message()); }
                r
            },
            Error::InlineFragmentSpreadIsNotPossible { inline_fragment, parent_type } => {
                let mut r = String::from_str("Fragment targeting type ");
                match &inline_fragment.type_condition {
                    Some(t) => r.append(t.as_str()),
                    None => r.append(parent_type.name.as_str()),
                }
                r.append(" cannot be spread for type ");
                r.append(parent_type.name.as_str());
                proof { assert(r@ =~= self.spec_message()); }
                r
            },
            Error::DirectiveDoesNotExist { directive } => {
                let mut r = String::from_str("No directive definition with name `@");
                r.append(directive.name.as_str());
                r.append("`");
                proof { assert(r@ =~= self.spec_message()); }
                r
            },
            Error::DirectiveInInvalidLocation { directive, directive_definition, location } => {
                let mut r = String::from_str("Directive @");
                r.append(directive.name.as_str());
                r.append(" cannot be used at location ");
                r.append(location_name(*location));
                r.append(". It is only allowed at the following locations: ");
                push_locations(&mut r, &directive_definition.locations);
                proof { assert(r@ =~= self.spec_message()); }
                r
            },
            Error::NonUniqueArgumentNames { name, .. } => {
                let mut r = String::from_str("Multiple arguments with name ");
                push_quoted(&mut r, name.as_str());
                proof { assert(r@ =~= self.spec_message()); }
                r
            },
        }
    }
}

} // verus!
