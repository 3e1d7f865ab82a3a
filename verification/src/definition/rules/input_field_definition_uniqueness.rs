//! The fields of an input object type must have distinct names. Each repeated name is
//! reported once, in the order names first appear, with all its fields.
use vstd::prelude::*;
use crate::definition::error::{Error, ErrorView, errors_view};
use crate::names::{dedup, unique_names};
use crate::schema::{InputValueDefinition, strings_model};

verus! {

pub open spec fn field_names(values: Seq<InputValueDefinition>) -> Seq<Seq<char>> {
    values.map_values(|v: InputValueDefinition| v.name@)
}

/// The fields named `name`, in order.
pub open spec fn fields_named<'a>(values: Seq<InputValueDefinition>, name: Seq<char>) -> Seq<
    &'a InputValueDefinition,
>
    decreases values.len(),
{
    if values.len() == 0 {
        Seq::empty()
    } else {
        fields_named(values.drop_last(), name) + if values.last().name@ == name {
            seq![&values.last()]
        } else {
            Seq::empty()
        }
    }
}

pub open spec fn field_duplicates<'a>(values: Seq<InputValueDefinition>, names: Seq<Seq<char>>) -> Seq<
    ErrorView<'a>,
>
    decreases names.len(),
{
    if names.len() == 0 {
        Seq::empty()
    } else {
        let named = fields_named(values, names.last());
        field_duplicates(values, names.drop_last()) + if named.len() > 1 {
            seq![
                ErrorView::NonUniqueInputValueDefinitionNames {
                    name: names.last(),
                    input_value_definitions: named,
                },
            ]
        } else {
            Seq::empty()
        }
    }
}

/// The errors of the rule for one input object type with these fields.
pub open spec fn input_field_duplicates<'a>(values: Seq<InputValueDefinition>) -> Seq<ErrorView<'a>> {
    field_duplicates(values, dedup(field_names(values)))
}

/// Appends the errors for the repeated names among the fields of one input object type.
pub fn input_field_definition_uniqueness<'a>(values: &'a Vec<InputValueDefinition>, errors: &mut Vec<Error<'a>>)
    ensures
        errors_view(final(errors)@) == errors_view(old(errors)@) + input_field_duplicates(values@),
{
    let mut names: Vec<String> = Vec::new();
    let mut i: usize = 0;
    while i < values.len()
        invariant
            i <= values.len(),
            strings_model(names@) == field_names(values@).take(i as int),
        decreases values.len() - i,
    {
        let ghost before = names@;
        names.push(values[i].name.clone());
        proof {
            assert(strings_model(names@) =~= strings_model(before).push(values@[i as int].name@));
            assert(field_names(values@).take(i + 1) =~= field_names(values@).take(i as int).push(
                values@[i as int].name@,
            ));
        }
        i += 1;
    }
    proof { assert(field_names(values@).take(i as int) =~= field_names(values@)); }
    let unique = unique_names(&names);
    let ghost um = strings_model(unique@);
    let ghost start = errors_view(errors@);
    let mut j: usize = 0;
    proof { assert(start + field_duplicates(values@, um.take(0)) =~= start); }
    while j < unique.len()
        invariant
            j <= unique.len(),
            um == strings_model(unique@),
            um == dedup(field_names(values@)),
            errors_view(errors@) == start + field_duplicates(values@, um.take(j as int)),
        decreases unique.len() - j,
    {
        let name = &unique[j];
        proof {
            assert(um[j as int] == name@);
            assert(um.take(j + 1).drop_last() =~= um.take(j as int));
            assert(um.take(j + 1).last() == name@);
        }
        let mut named: Vec<&'a InputValueDefinition> = Vec::new();
        let mut first_name: Option<&'a String> = None;
        let mut k: usize = 0;
        while k < values.len()
            invariant
                k <= values.len(),
                named@ == fields_named(values@.take(k as int), name@),
                named@.len() > 0 <==> first_name is Some,
                first_name matches Some(n) ==> n@ == name@,
            decreases values.len() - k,
        {
            proof {
                assert(values@.take(k + 1).drop_last() =~= values@.take(k as int));
                assert(values@.take(k + 1).last() == values@[k as int]);
            }
            let v: &'a InputValueDefinition = &values[k];
            if v.name == *name {
                named.push(v);
                if first_name.is_none() {
                    first_name = Some(&v.name);
                }
            }
            k += 1;
        }
        proof { assert(values@.take(k as int) =~= values@); }
        let ghost before = errors_view(errors@);
        if named.len() > 1 {
            match first_name {
                Some(n) => {
                    errors.push(Error::NonUniqueInputValueDefinitionNames { name: n, input_value_definitions: named });
                },
                None => {},
            }
        }
        proof {
            let step: Seq<ErrorView<'a>> = if named@.len() > 1 {
                seq![ErrorView::NonUniqueInputValueDefinitionNames { name: name@, input_value_definitions: named@ }]
            } else {
                Seq::empty()
            };
            assert(named@ == fields_named(values@, name@));
            assert(field_duplicates(values@, um.take(j + 1)) == field_duplicates(values@, um.take(j as int)) + step);
            assert(errors_view(errors@) =~= before + step);
        }
        j += 1;
    }
    proof { assert(um.take(j as int) =~= um); }
}

} // verus!
