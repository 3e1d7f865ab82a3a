//! The values of an enum type must have distinct names. Each repeated name is
//! reported once, in the order names first appear, with all its values.
use vstd::prelude::*;
use crate::definition::error::{Error, ErrorView, errors_view};
use crate::names::{dedup, unique_names};
use crate::schema::{EnumValueDefinition, strings_model};

verus! {

pub open spec fn value_names(values: Seq<EnumValueDefinition>) -> Seq<Seq<char>> {
    values.map_values(|v: EnumValueDefinition| v.name@)
}

/// The values named `name`, in order.
pub open spec fn values_named<'a>(values: Seq<EnumValueDefinition>, name: Seq<char>) -> Seq<
    &'a EnumValueDefinition,
>
    decreases values.len(),
{
    if values.len() == 0 {
        Seq::empty()
    } else {
        values_named(values.drop_last(), name) + if values.last().name@ == name {
            seq![&values.last()]
        } else {
            Seq::empty()
        }
    }
}

pub open spec fn value_duplicates<'a>(values: Seq<EnumValueDefinition>, names: Seq<Seq<char>>) -> Seq<
    ErrorView<'a>,
>
    decreases names.len(),
{
    if names.len() == 0 {
        Seq::empty()
    } else {
        let named = values_named(values, names.last());
        value_duplicates(values, names.drop_last()) + if named.len() > 1 {
            seq![
                ErrorView::NonUniqueEnumValueDefinitionNames {
                    name: names.last(),
                    enum_value_definitions: named,
                },
            ]
        } else {
            Seq::empty()
        }
    }
}

/// The errors of the rule for one enum type with these values.
pub open spec fn enum_value_duplicates<'a>(values: Seq<EnumValueDefinition>) -> Seq<ErrorView<'a>> {
    value_duplicates(values, dedup(value_names(values)))
}

/// Appends the errors for the repeated names among the values of one enum type.
pub fn enum_value_definition_uniqueness<'a>(values: &'a Vec<EnumValueDefinition>, errors: &mut Vec<Error<'a>>)
    ensures
        errors_view(final(errors)@) == errors_view(old(errors)@) + enum_value_duplicates(values@),
{
    let mut names: Vec<String> = Vec::new();
    let mut i: usize = 0;
    while i < values.len()
        invariant
            i <= values.len(),
            strings_model(names@) == value_names(values@).take(i as int),
        decreases values.len() - i,
    {
        let ghost before = names@;
        names.push(values[i].name.clone());
        proof {
            assert(strings_model(names@) =~= strings_model(before).push(values@[i as int].name@));
            assert(value_names(values@).take(i + 1) =~= value_names(values@).take(i as int).push(
                values@[i as int].name@,
            ));
        }
        i += 1;
    }
    proof { assert(value_names(values@).take(i as int) =~= value_names(values@)); }
    let unique = unique_names(&names);
    let ghost um = strings_model(unique@);
    let ghost start = errors_view(errors@);
    let mut j: usize = 0;
    proof { assert(start + value_duplicates(values@, um.take(0)) =~= start); }
    while j < unique.len()
        invariant
            j <= unique.len(),
            um == strings_model(unique@),
            um == dedup(value_names(values@)),
            errors_view(errors@) == start + value_duplicates(values@, um.take(j as int)),
        decreases unique.len() - j,
    {
        let name = &unique[j];
        proof {
            assert(um[j as int] == name@);
            assert(um.take(j + 1).drop_last() =~= um.take(j as int));
            assert(um.take(j + 1).last() == name@);
        }
        let mut named: Vec<&'a EnumValueDefinition> = Vec::new();
        let mut first_name: Option<&'a String> = None;
        let mut k: usize = 0;
        while k < values.len()
            invariant
                k <= values.len(),
                named@ == values_named(values@.take(k as int), name@),
                named@.len() > 0 <==> first_name is Some,
                first_name matches Some(n) ==> n@ == name@,
            decreases values.len() - k,
        {
            proof {
                assert(values@.take(k + 1).drop_last() =~= values@.take(k as int));
                assert(values@.take(k + 1).last() == values@[k as int]);
            }
            let v: &'a EnumValueDefinition = &values[k];
            if v.name == *name {
                named.push(v);
                if first_name.is_none() {
                    first_name = Some(&v.name);
                }
            }
            k += 1;
        }
        proof { assert(values@.take(k as int) =~= values@); }
        let ghost before = errors_view(errors@);
        if named.len() > 1 {
            match first_name {
                Some(n) => {
                    errors.push(Error::NonUniqueEnumValueDefinitionNames { name: n, enum_value_definitions: named });
                },
                None => {},
            }
        }
        proof {
            let step: Seq<ErrorView<'a>> = if named@.len() > 1 {
                seq![ErrorView::NonUniqueEnumValueDefinitionNames { name: name@, enum_value_definitions: named@ }]
            } else {
                Seq::empty()
            };
            assert(named@ == values_named(values@, name@));
            assert(value_duplicates(values@, um.take(j + 1)) == value_duplicates(values@, um.take(j as int)) + step);
            assert(errors_view(errors@) =~= before + step);
        }
        j += 1;
    }
    proof { assert(um.take(j as int) =~= um); }
}

} // verus!
