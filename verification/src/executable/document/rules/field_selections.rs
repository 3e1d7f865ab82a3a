//! The fields selected in a selection set must be defined by the type the set is
//! scoped to. Types without fields (scalars, enums, unions) report nothing. Sets are
//! taken in the order of `document_visits`, fields in the order they stand.
use vstd::prelude::*;
use crate::document::{ExecutableDocument, Selection};
use crate::executable::document::error::{Error, ErrorView, errors_view};
use crate::executable::document::selection_sets::{
    SelectionSets, SetNodeView, document_nodes, document_visits, nodes_view, valid_type, visits_valid,
    visits_view,
};
use crate::schema::{SchemaDefinition, field_index, find_field, spec_fields_of};

verus! {

/// The fields among `sels` that the type `ty` does not define.
pub open spec fn missing_fields<'a>(schema: &'a SchemaDefinition, sels: Seq<Selection>, ty: int) -> Seq<
    ErrorView<'a>,
>
    decreases sels.len(),
{
    if sels.len() == 0 {
        Seq::empty()
    } else {
        missing_fields(schema, sels.drop_last(), ty) + match sels.last() {
            Selection::Field(f) => match spec_fields_of(schema.types@[ty].kind) {
                Some(fds) => if field_index(fds, f.name@) is None {
                    seq![ErrorView::FieldDoesNotExistOnType { field: &f, type_definition: &schema.types@[ty] }]
                } else {
                    Seq::empty()
                },
                None => Seq::empty(),
            },
            _ => Seq::empty(),
        }
    }
}

pub open spec fn visits_missing_fields<'a>(
    schema: &'a SchemaDefinition,
    nodes: Seq<SetNodeView<'a>>,
    visits: Seq<(int, int)>,
) -> Seq<ErrorView<'a>>
    decreases visits.len(),
{
    if visits.len() == 0 {
        Seq::empty()
    } else {
        visits_missing_fields(schema, nodes, visits.drop_last()) + missing_fields(
            schema,
            nodes[visits.last().0].selections@,
            visits.last().1,
        )
    }
}

/// The errors of the rule.
pub open spec fn field_selections_errors<'a>(
    schema: &'a SchemaDefinition,
    document: &'a ExecutableDocument,
) -> Seq<ErrorView<'a>> {
    visits_missing_fields(schema, document_nodes(document), document_visits(*schema, document))
}

fn set_missing_fields<'a>(
    schema: &'a SchemaDefinition,
    sels: &'a Vec<Selection>,
    ty: usize,
    errors: &mut Vec<Error<'a>>,
)
    requires
        valid_type(*schema, ty as int),
    ensures
        errors_view(final(errors)@) == errors_view(old(errors)@) + missing_fields(schema, sels@, ty as int),
{
    let ghost start = errors_view(errors@);
    let fields = schema.types[ty].fields();
    let mut k: usize = 0;
    while k < sels.len()
        invariant
            k <= sels.len(),
            valid_type(*schema, ty as int),
            fields matches Some(f) ==> spec_fields_of(schema.types@[ty as int].kind) == Some(f@),
            fields is None ==> spec_fields_of(schema.types@[ty as int].kind) is None,
            errors_view(errors@) == start + missing_fields(schema, sels@.take(k as int), ty as int),
        decreases sels.len() - k,
    {
        proof {
            assert(sels@.take(k + 1).drop_last() =~= sels@.take(k as int));
            assert(sels@.take(k + 1).last() == sels@[k as int]);
        }
        let ghost before = errors@;
        match &sels[k] {
            Selection::Field(f) => match fields {
                Some(fds) => if find_field(fds, &f.name).is_none() {
                    errors.push(Error::FieldDoesNotExistOnType { field: f, type_definition: &schema.types[ty] });
                    proof { assert(errors_view(errors@) =~= errors_view(before).push(errors@.last()@)); }
                },
                None => {},
            },
            _ => {},
        }
        k += 1;
        proof {
            assert(errors_view(errors@) =~= start + missing_fields(schema, sels@.take(k as int), ty as int));
        }
    }
    proof { assert(sels@.take(k as int) =~= sels@); }
}

/// Reports each selected field that its scoped type does not define.
pub fn field_selections<'a>(document: &'a ExecutableDocument, schema: &'a SchemaDefinition) -> (r: Vec<
    Error<'a>,
>)
    ensures
        errors_view(r@) == field_selections_errors(schema, document),
{
    let sets = SelectionSets::new(document);
    let visits = sets.visits(schema, document);
    let ghost nodes = nodes_view(sets.nodes@);
    let ghost vv = visits_view(visits@);
    let mut errors: Vec<Error<'a>> = Vec::new();
    let mut i: usize = 0;
    proof { assert(errors_view(errors@) =~= Seq::<ErrorView<'a>>::empty()); }
    while i < visits.len()
        invariant
            i <= visits.len(),
            nodes == nodes_view(sets.nodes@),
            nodes == document_nodes(document),
            vv == visits_view(visits@),
            visits_valid(*schema, nodes, visits@),
            errors_view(errors@) == visits_missing_fields(schema, nodes, vv.take(i as int)),
        decreases visits.len() - i,
    {
        proof {
            assert(vv.take(i + 1).drop_last() =~= vv.take(i as int));
            assert(vv.take(i + 1).last() == vv[i as int]);
            assert(visits@[i as int].0 < nodes.len());
        }
        let (n, t) = visits[i];
        proof { assert(nodes[n as int].selections == sets.nodes@[n as int].selections); }
        set_missing_fields(schema, sets.nodes[n].selections, t, &mut errors);
        i += 1;
    }
    proof { assert(vv.take(i as int) =~= vv); }
    errors
}

} // verus!
