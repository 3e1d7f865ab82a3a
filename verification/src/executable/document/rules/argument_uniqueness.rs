//! The arguments of one field or directive must have distinct names. Each repeated
//! name is reported once, in the order names first appear, with all its arguments.
//! Fields are those defined by the type their set is scoped to, taken in the order of
//! `document_visits`; then the directives, in the order of `document_directive_uses`.
use vstd::prelude::*;
use crate::document::{ExecutableDocument, Selection};
use crate::executable::document::directive_uses::{
    DirectiveUse, collect_directive_uses, document_directive_uses,
};
use crate::executable::document::error::{Error, ErrorView, errors_view};
use crate::executable::document::selection_sets::{
    SelectionSets, SetNodeView, document_nodes, document_visits, nodes_view, valid_type, visits_valid,
    visits_view,
};
use crate::names::{dedup, unique_names};
use crate::schema::{SchemaDefinition, field_index, find_field, spec_fields_of, strings_model};
use crate::value::Argument;

verus! {

pub open spec fn argument_names(args: Seq<Argument>) -> Seq<Seq<char>> {
    args.map_values(|a: Argument| a.name@)
}

/// The arguments named `name`, in order.
pub open spec fn arguments_named<'a>(args: Seq<Argument>, name: Seq<char>) -> Seq<&'a Argument>
    decreases args.len(),
{
    if args.len() == 0 {
        Seq::empty()
    } else {
        arguments_named(args.drop_last(), name) + if args.last().name@ == name {
            seq![&args.last()]
        } else {
            Seq::empty()
        }
    }
}

pub open spec fn name_duplicates<'a>(args: Seq<Argument>, names: Seq<Seq<char>>) -> Seq<ErrorView<'a>>
    decreases names.len(),
{
    if names.len() == 0 {
        Seq::empty()
    } else {
        let named = arguments_named(args, names.last());
        name_duplicates(args, names.drop_last()) + if named.len() > 1 {
            seq![ErrorView::NonUniqueArgumentNames { name: names.last(), arguments: named }]
        } else {
            Seq::empty()
        }
    }
}

/// The repeated names of one list of arguments.
pub open spec fn argument_duplicates<'a>(args: Seq<Argument>) -> Seq<ErrorView<'a>> {
    name_duplicates(args, dedup(argument_names(args)))
}

pub open spec fn set_field_duplicates<'a>(schema: SchemaDefinition, sels: Seq<Selection>, ty: int) -> Seq<
    ErrorView<'a>,
>
    decreases sels.len(),
{
    if sels.len() == 0 {
        Seq::empty()
    } else {
        set_field_duplicates(schema, sels.drop_last(), ty) + match sels.last() {
            Selection::Field(f) => match spec_fields_of(schema.types@[ty].kind) {
                Some(fds) => if field_index(fds, f.name@) is Some {
                    argument_duplicates(f.arguments@)
                } else {
                    Seq::empty()
                },
                None => Seq::empty(),
            },
            _ => Seq::empty(),
        }
    }
}

pub open spec fn visits_field_duplicates<'a>(
    schema: SchemaDefinition,
    nodes: Seq<SetNodeView<'a>>,
    visits: Seq<(int, int)>,
) -> Seq<ErrorView<'a>>
    decreases visits.len(),
{
    if visits.len() == 0 {
        Seq::empty()
    } else {
        visits_field_duplicates(schema, nodes, visits.drop_last()) + set_field_duplicates(
            schema,
            nodes[visits.last().0].selections@,
            visits.last().1,
        )
    }
}

pub open spec fn directive_duplicates<'a>(uses: Seq<DirectiveUse<'a>>) -> Seq<ErrorView<'a>>
    decreases uses.len(),
{
    if uses.len() == 0 {
        Seq::empty()
    } else {
        directive_duplicates(uses.drop_last()) + argument_duplicates(uses.last().directive.arguments@)
    }
}

/// The errors of the rule.
pub open spec fn argument_uniqueness_errors<'a>(
    schema: &'a SchemaDefinition,
    document: &'a ExecutableDocument,
) -> Seq<ErrorView<'a>> {
    visits_field_duplicates(*schema, document_nodes(document), document_visits(*schema, document))
        + directive_duplicates(document_directive_uses(*document))
}

/// Appends the errors for the repeated names among `args`.
pub fn collect_argument_duplicates<'a>(args: &'a Vec<Argument>, errors: &mut Vec<Error<'a>>)
    ensures
        errors_view(final(errors)@) == errors_view(old(errors)@) + argument_duplicates(args@),
{
    let mut names: Vec<String> = Vec::new();
    let mut i: usize = 0;
    while i < args.len()
        invariant
            i <= args.len(),
            strings_model(names@) == argument_names(args@).take(i as int),
        decreases args.len() - i,
    {
        let ghost before = names@;
        names.push(args[i].name.clone());
        proof {
            assert(strings_model(names@) =~= strings_model(before).push(args@[i as int].name@));
            assert(argument_names(args@).take(i + 1) =~= argument_names(args@).take(i as int).push(
                args@[i as int].name@,
            ));
        }
        i += 1;
    }
    proof { assert(argument_names(args@).take(i as int) =~= argument_names(args@)); }
    let unique = unique_names(&names);
    let ghost um = strings_model(unique@);
    let ghost start = errors_view(errors@);
    let mut j: usize = 0;
    proof { assert(start + name_duplicates(args@, um.take(0)) =~= start); }
    while j < unique.len()
        invariant
            j <= unique.len(),
            um == strings_model(unique@),
            um == dedup(argument_names(args@)),
            errors_view(errors@) == start + name_duplicates(args@, um.take(j as int)),
        decreases unique.len() - j,
    {
        let name = &unique[j];
        proof {
            assert(um[j as int] == name@);
            assert(um.take(j + 1).drop_last() =~= um.take(j as int));
            assert(um.take(j + 1).last() == name@);
        }
        let mut named: Vec<&'a Argument> = Vec::new();
        let mut first_name: Option<&'a String> = None;
        let mut k: usize = 0;
        while k < args.len()
            invariant
                k <= args.len(),
                named@ == arguments_named(args@.take(k as int), name@),
                named@.len() > 0 <==> first_name is Some,
                first_name matches Some(n) ==> n@ == name@,
            decreases args.len() - k,
        {
            proof {
                assert(args@.take(k + 1).drop_last() =~= args@.take(k as int));
                assert(args@.take(k + 1).last() == args@[k as int]);
            }
            let a: &'a Argument = &args[k];
            if a.name == *name {
                named.push(a);
                if first_name.is_none() {
                    first_name = Some(&a.name);
                }
            }
            k += 1;
        }
        proof { assert(args@.take(k as int) =~= args@); }
        let ghost before = errors_view(errors@);
        if named.len() > 1 {
            match first_name {
                Some(n) => {
                    errors.push(Error::NonUniqueArgumentNames { name: n, arguments: named });
                },
                None => {},
            }
        }
        proof {
            let step: Seq<ErrorView<'a>> = if named@.len() > 1 {
                seq![ErrorView::NonUniqueArgumentNames { name: name@, arguments: named@ }]
            } else {
                Seq::empty()
            };
            assert(named@ == arguments_named(args@, name@));
            assert(name_duplicates(args@, um.take(j + 1)) == name_duplicates(args@, um.take(j as int)) + step);
            assert(errors_view(errors@) =~= before + step);
        }
        j += 1;
    }
    proof { assert(um.take(j as int) =~= um); }
}

fn set_duplicates<'a>(schema: &'a SchemaDefinition, sels: &'a Vec<Selection>, ty: usize, errors: &mut Vec<Error<'a>>)
    requires
        valid_type(*schema, ty as int),
    ensures
        errors_view(final(errors)@) == errors_view(old(errors)@) + set_field_duplicates(*schema, sels@, ty as int),
{
    let ghost start = errors_view(errors@);
    let fields = schema.types[ty].fields();
    let mut k: usize = 0;
    while k < sels.len()
        invariant
            k <= sels.len(),
            valid_type(*schema, ty as int),
            fields matches Some(f) ==> spec_fields_of(schema.types@[ty as int].kind) == Some(f@),
            fields is None ==> spec_fields_of(schema.types@[ty as int].kind) is None,
            errors_view(errors@) == start + set_field_duplicates(*schema, sels@.take(k as int), ty as int),
        decreases sels.len() - k,
    {
        proof {
            assert(sels@.take(k + 1).drop_last() =~= sels@.take(k as int));
            assert(sels@.take(k + 1).last() == sels@[k as int]);
        }
        let ghost before = errors_view(errors@);
        match &sels[k] {
            Selection::Field(f) => match fields {
                Some(fds) => if find_field(fds, &f.name).is_some() {
                    collect_argument_duplicates(&f.arguments, errors);
                },
                None => {},
            },
            _ => {},
        }
        k += 1;
        proof {
            assert(errors_view(errors@) =~= start + set_field_duplicates(*schema, sels@.take(k as int), ty as int));
        }
    }
    proof { assert(sels@.take(k as int) =~= sels@); }
}

/// Reports each name given to several arguments of one field or directive.
pub fn argument_uniqueness<'a>(document: &'a ExecutableDocument, schema: &'a SchemaDefinition) -> (r: Vec<
    Error<'a>,
>)
    ensures
        errors_view(r@) == argument_uniqueness_errors(schema, document),
{
    let sets = SelectionSets::new(document);
    let visits = sets.visits(schema, document);
    let ghost nodes = nodes_view(sets.nodes@);
    let ghost vv = visits_view(visits@);
    let mut errors: Vec<Error<'a>> = Vec::new();
    let mut i: usize = 0;
    proof { assert(errors_view(errors@) =~= Seq::<ErrorView<'a>>::empty()); }
    while i < visits.len()
        invariant
            i <= visits.len(),
            nodes == nodes_view(sets.nodes@),
            nodes == document_nodes(document),
            vv == visits_view(visits@),
            visits_valid(*schema, nodes, visits@),
            errors_view(errors@) == visits_field_duplicates(*schema, nodes, vv.take(i as int)),
        decreases visits.len() - i,
    {
        proof {
            assert(vv.take(i + 1).drop_last() =~= vv.take(i as int));
            assert(vv.take(i + 1).last() == vv[i as int]);
            assert(visits@[i as int].0 < nodes.len());
        }
        let (n, t) = visits[i];
        proof { assert(nodes[n as int].selections == sets.nodes@[n as int].selections); }
        set_duplicates(schema, sets.nodes[n].selections, t, &mut errors);
        i += 1;
    }
    proof { assert(vv.take(i as int) =~= vv); }
    let ghost middle = errors_view(errors@);
    let uses = collect_directive_uses(document);
    let mut j: usize = 0;
    proof { assert(middle + directive_duplicates(uses@.take(0)) =~= middle); }
    while j < uses.len()
        invariant
            j <= uses.len(),
            errors_view(errors@) == middle + directive_duplicates(uses@.take(j as int)),
        decreases uses.len() - j,
    {
        proof {
            assert(uses@.take(j + 1).drop_last() =~= uses@.take(j as int));
            assert(uses@.take(j + 1).last() == uses@[j as int]);
        }
        collect_argument_duplicates(&uses[j].directive.arguments, &mut errors);
        j += 1;
        proof { assert(errors_view(errors@) =~= middle + directive_duplicates(uses@.take(j as int))); }
    }
    proof { assert(uses@.take(j as int) =~= uses@); }
    errors
}

} // verus!
