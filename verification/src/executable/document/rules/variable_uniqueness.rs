//! The variables of an operation must have distinct names. For each operation in
//! document order, each repeated name is reported once, in the order names first
//! appear, with all its definitions.
use vstd::prelude::*;
use crate::document::{ExecutableDocument, OperationDefinition, VariableDefinition};
use crate::executable::document::error::{Error, ErrorView, errors_view};
use crate::names::{dedup, unique_names};
use crate::schema::strings_model;

verus! {

pub open spec fn variable_names(vds: Seq<VariableDefinition>) -> Seq<Seq<char>> {
    vds.map_values(|vd: VariableDefinition| vd.variable@)
}

/// The variable definitions named `name`, in order.
pub open spec fn definitions_named<'a>(vds: Seq<VariableDefinition>, name: Seq<char>) -> Seq<
    &'a VariableDefinition,
>
    decreases vds.len(),
{
    if vds.len() == 0 {
        Seq::empty()
    } else {
        definitions_named(vds.drop_last(), name) + if vds.last().variable@ == name {
            seq![&vds.last()]
        } else {
            Seq::empty()
        }
    }
}

pub open spec fn duplicate_errors<'a>(vds: Seq<VariableDefinition>, names: Seq<Seq<char>>) -> Seq<
    ErrorView<'a>,
>
    decreases names.len(),
{
    if names.len() == 0 {
        Seq::empty()
    } else {
        let named = definitions_named(vds, names.last());
        duplicate_errors(vds, names.drop_last()) + if named.len() > 1 {
            seq![
                ErrorView::NonUniqueVariableDefinitionNames {
                    name: names.last(),
                    variable_definitions: named,
                },
            ]
        } else {
            Seq::empty()
        }
    }
}

pub open spec fn operations_duplicate_errors<'a>(ops: Seq<OperationDefinition>) -> Seq<ErrorView<'a>>
    decreases ops.len(),
{
    if ops.len() == 0 {
        Seq::empty()
    } else {
        let vds = ops.last().variable_definitions@;
        operations_duplicate_errors(ops.drop_last()) + duplicate_errors(vds, dedup(variable_names(vds)))
    }
}

/// The errors of the rule.
pub open spec fn variable_uniqueness_errors<'a>(document: ExecutableDocument) -> Seq<ErrorView<'a>> {
    operations_duplicate_errors(document.operation_definitions@)
}

fn operation_duplicates<'a>(vds: &'a Vec<VariableDefinition>, errors: &mut Vec<Error<'a>>)
    ensures
        errors_view(final(errors)@) == errors_view(old(errors)@) + duplicate_errors(
            vds@,
            dedup(variable_names(vds@)),
        ),
{
    let mut names: Vec<String> = Vec::new();
    let mut i: usize = 0;
    while i < vds.len()
        invariant
            i <= vds.len(),
            strings_model(names@) == variable_names(vds@).take(i as int),
        decreases vds.len() - i,
    {
        let ghost before = names@;
        names.push(vds[i].variable.clone());
        proof {
            assert(strings_model(names@) =~= strings_model(before).push(vds@[i as int].variable@));
            assert(variable_names(vds@).take(i + 1) =~= variable_names(vds@).take(i as int).push(
                vds@[i as int].variable@,
            ));
        }
        i += 1;
    }
    proof { assert(variable_names(vds@).take(i as int) =~= variable_names(vds@)); }
    let unique = unique_names(&names);
    let ghost um = strings_model(unique@);
    let ghost start = errors@;
    let mut j: usize = 0;
    proof { assert(errors_view(start) + duplicate_errors(vds@, um.take(0)) =~= errors_view(start)); }
    while j < unique.len()
        invariant
            j <= unique.len(),
            um == strings_model(unique@),
            errors_view(errors@) == errors_view(start) + duplicate_errors(vds@, um.take(j as int)),
        decreases unique.len() - j,
    {
        let name = &unique[j];
        proof {
            assert(um[j as int] == name@);
            assert(um.take(j + 1).drop_last() =~= um.take(j as int));
            assert(um.take(j + 1).last() == name@);
        }
        let mut named: Vec<&'a VariableDefinition> = Vec::new();
        let mut first_name: Option<&'a String> = None;
        let mut k: usize = 0;
        while k < vds.len()
            invariant
                k <= vds.len(),
                errors_view(errors@) == errors_view(start) + duplicate_errors(vds@, um.take(j as int)),
                named@ == definitions_named(vds@.take(k as int), name@),
                named@.len() > 0 <==> first_name is Some,
                first_name matches Some(n) ==> n@ == name@,
            decreases vds.len() - k,
        {
            proof {
                assert(vds@.take(k + 1).drop_last() =~= vds@.take(k as int));
                assert(vds@.take(k + 1).last() == vds@[k as int]);
            }
            let vd: &'a VariableDefinition = &vds[k];
            if vd.variable == *name {
                named.push(vd);
                if first_name.is_none() {
                    first_name = Some(&vd.variable);
                }
            }
            k += 1;
        }
        proof { assert(vds@.take(k as int) =~= vds@); }
        let ghost before = errors@;
        if named.len() > 1 {
            match first_name {
                Some(n) => {
                    errors.push(
                        Error::NonUniqueVariableDefinitionNames { name: n, variable_definitions: named },
                    );
                },
                None => {},
            }
        }
        proof {
            let step: Seq<ErrorView<'a>> = if named@.len() > 1 {
                seq![
                    ErrorView::NonUniqueVariableDefinitionNames {
                        name: name@,
                        variable_definitions: named@,
                    },
                ]
            } else {
                Seq::empty()
            };
            assert(named@ == definitions_named(vds@, name@));
            assert(duplicate_errors(vds@, um.take(j + 1)) == duplicate_errors(vds@, um.take(j as int))
                + step);
            assert(errors_view(errors@) =~= errors_view(before) + step);
            assert(errors_view(errors@) =~= errors_view(start) + duplicate_errors(vds@, um.take(j + 1)));
        }
        j += 1;
    }
    proof { assert(um.take(j as int) =~= um); }
}

pub fn variable_uniqueness<'a>(document: &'a ExecutableDocument) -> (r: Vec<Error<'a>>)
    ensures
        errors_view(r@) == variable_uniqueness_errors(*document),
{
    let ops = &document.operation_definitions;
    let mut errors: Vec<Error<'a>> = Vec::new();
    let mut i: usize = 0;
    while i < ops.len()
        invariant
            i <= ops.len(),
            *ops == document.operation_definitions,
            errors_view(errors@) == operations_duplicate_errors(ops@.take(i as int)),
        decreases ops.len() - i,
    {
        proof {
            assert(ops@.take(i + 1).drop_last() =~= ops@.take(i as int));
            assert(ops@.take(i + 1).last() == ops@[i as int]);
        }
        operation_duplicates(&ops[i].variable_definitions, &mut errors);
        i += 1;
    }
    proof { assert(ops@.take(i as int) =~= ops@); }
    errors
}

} // verus!
