//! A fragment may only be spread where some object could be both of the enclosing
//! type and of the fragment's type. Both types must be composite for the rule to
//! apply; a type is always possible within itself. Sets are taken in the order of
//! `document_visits`, spreads and inline fragments in the order they stand.
use vstd::prelude::*;
use crate::document::{ExecutableDocument, Selection};
use crate::executable::document::error::{Error, ErrorView, errors_view};
use crate::executable::document::selection_sets::{
    SelectionSets, SetNodeView, document_nodes, document_visits, nodes_view, valid_type, visits_valid,
    visits_view,
};
use crate::names::contains_name;
use crate::schema::{SchemaDefinition, spec_is_composite, strings_model};

verus! {

/// Whether two lists of names share one.
pub open spec fn share_a_name(a: Seq<Seq<char>>, b: Seq<Seq<char>>) -> bool {
    exists|i: int, j: int| 0 <= i < a.len() && 0 <= j < b.len() && #[trigger] a[i] == #[trigger] b[j]
}

/// Whether no object can be of both types, when both are composite and differ.
pub open spec fn spread_impossible(schema: SchemaDefinition, parent: int, fragment: int) -> bool {
    let p = schema.types@[parent];
    let f = schema.types@[fragment];
    &&& spec_is_composite(p.kind)
    &&& spec_is_composite(f.kind)
    &&& p.name@ != f.name@
    &&& !share_a_name(schema.possible_types(parent), schema.possible_types(fragment))
}

/// Whether no object can be both of type `parent` and of type `fragment`.
pub fn spread_is_not_possible(schema: &SchemaDefinition, parent: usize, fragment: usize) -> (r: bool)
    requires
        valid_type(*schema, parent as int),
        valid_type(*schema, fragment as int),
    ensures
        r == spread_impossible(*schema, parent as int, fragment as int),
{
    let p = &schema.types[parent];
    let f = &schema.types[fragment];
    if !p.is_composite() || !f.is_composite() {
        return false;
    }
    if p.name == f.name {
        return false;
    }
    let a = schema.possible_type_names(parent);
    let b = schema.possible_type_names(fragment);
    let ghost am = strings_model(a@);
    let ghost bm = strings_model(b@);
    let mut i: usize = 0;
    while i < a.len()
        invariant
            i <= a.len(),
            am == strings_model(a@),
            bm == strings_model(b@),
            am == schema.possible_types(parent as int),
            bm == schema.possible_types(fragment as int),
            spec_is_composite(schema.types@[parent as int].kind),
            spec_is_composite(schema.types@[fragment as int].kind),
            schema.types@[parent as int].name@ != schema.types@[fragment as int].name@,
            forall|x: int, y: int| 0 <= x < i && 0 <= y < bm.len() ==> #[trigger] am[x] != #[trigger] bm[y],
        decreases a.len() - i,
    {
        if contains_name(&b, &a[i]) {
            proof {
                assert(am[i as int] == a@[i as int]@);
                assert(bm.contains(am[i as int]));
                let y = choose|y: int| 0 <= y < bm.len() && bm[y] == am[i as int];
                assert(am[i as int] == bm[y]);
                assert(share_a_name(am, bm));
            }
            return false;
        }
        proof {
            assert forall|x: int, y: int| 0 <= x < i + 1 && 0 <= y < bm.len() implies #[trigger] am[x]
                != #[trigger] bm[y] by {
                if x == i {
                    assert(bm[y] == b@[y]@);
                }
            }
        }
        i += 1;
    }
    true
}

/// A spread is reported impossible only when no object type could be of both types:
/// no name is among the possible types of the enclosing type and among those of the
/// fragment's type.
pub proof fn lemma_impossible_spreads_share_no_type(schema: SchemaDefinition, parent: int, fragment: int)
    requires
        spread_impossible(schema, parent, fragment),
    ensures
        forall|i: int, j: int|
            0 <= i < schema.possible_types(parent).len() && 0 <= j < schema.possible_types(fragment).len()
                ==> #[trigger] schema.possible_types(parent)[i] != #[trigger] schema.possible_types(
                fragment,
            )[j],
{
}

/// Two distinct composite types whose possible types have no name in common make a
/// spread impossible.
pub proof fn lemma_disjoint_types_make_spreads_impossible(schema: SchemaDefinition, parent: int, fragment: int)
    requires
        spec_is_composite(schema.types@[parent].kind),
        spec_is_composite(schema.types@[fragment].kind),
        schema.types@[parent].name@ != schema.types@[fragment].name@,
        forall|i: int, j: int|
            0 <= i < schema.possible_types(parent).len() && 0 <= j < schema.possible_types(fragment).len()
                ==> #[trigger] schema.possible_types(parent)[i] != #[trigger] schema.possible_types(
                fragment,
            )[j],
    ensures
        spread_impossible(schema, parent, fragment),
{
}

/// An object type is possible within any abstract type that counts it among its
/// possible types: a spread of the one inside the other, either way round, is possible.
pub proof fn lemma_member_object_spreads_are_possible(schema: SchemaDefinition, object: int, other: int)
    requires
        0 <= object < schema.types@.len(),
        schema.types@[object].kind is Object,
        schema.possible_types(other).contains(schema.types@[object].name@),
    ensures
        !spread_impossible(schema, object, other),
        !spread_impossible(schema, other, object),
{
    let j = choose|j: int| 0 <= j < schema.possible_types(other).len() && schema.possible_types(other)[j]
        == schema.types@[object].name@;
    assert(schema.possible_types(object)[0] == schema.types@[object].name@);
    assert(schema.possible_types(object)[0] == schema.possible_types(other)[j]);
}

/// The spreads and inline fragments among `sels`, scoped to `ty`, that are not possible.
pub open spec fn impossible_spreads<'a>(
    schema: &'a SchemaDefinition,
    document: &'a ExecutableDocument,
    sels: Seq<Selection>,
    ty: int,
) -> Seq<ErrorView<'a>>
    decreases sels.len(),
{
    if sels.len() == 0 {
        Seq::empty()
    } else {
        impossible_spreads(schema, document, sels.drop_last(), ty) + match sels.last() {
            Selection::FragmentSpread(s) => match document.fragment_index(s.name@) {
                Some(j) => match schema.type_index(document.fragment_definitions@[j].type_condition@) {
                    Some(ft) => if spread_impossible(*schema, ty, ft) {
                        seq![
                            ErrorView::FragmentSpreadIsNotPossible {
                                fragment_spread: &s,
                                parent_type: &schema.types@[ty],
                            },
                        ]
                    } else {
                        Seq::empty()
                    },
                    None => Seq::empty(),
                },
                None => Seq::empty(),
            },
            Selection::InlineFragment(i) => match i.type_condition {
                Some(tc) => match schema.type_index(tc@) {
                    Some(ft) => if spread_impossible(*schema, ty, ft) {
                        seq![
                            ErrorView::InlineFragmentSpreadIsNotPossible {
                                inline_fragment: &i,
                                parent_type: &schema.types@[ty],
                            },
                        ]
                    } else {
                        Seq::empty()
                    },
                    None => Seq::empty(),
                },
                None => Seq::empty(),
            },
            Selection::Field(_) => Seq::empty(),
        }
    }
}

pub open spec fn visits_impossible_spreads<'a>(
    schema: &'a SchemaDefinition,
    document: &'a ExecutableDocument,
    nodes: Seq<SetNodeView<'a>>,
    visits: Seq<(int, int)>,
) -> Seq<ErrorView<'a>>
    decreases visits.len(),
{
    if visits.len() == 0 {
        Seq::empty()
    } else {
        visits_impossible_spreads(schema, document, nodes, visits.drop_last()) + impossible_spreads(
            schema,
            document,
            nodes[visits.last().0].selections@,
            visits.last().1,
        )
    }
}

/// The errors of the rule.
pub open spec fn fragment_spread_is_possible_errors<'a>(
    schema: &'a SchemaDefinition,
    document: &'a ExecutableDocument,
) -> Seq<ErrorView<'a>> {
    visits_impossible_spreads(schema, document, document_nodes(document), document_visits(*schema, document))
}

fn set_impossible_spreads<'a>(
    schema: &'a SchemaDefinition,
    document: &'a ExecutableDocument,
    sels: &'a Vec<Selection>,
    ty: usize,
    errors: &mut Vec<Error<'a>>,
)
    requires
        valid_type(*schema, ty as int),
    ensures
        errors_view(final(errors)@) == errors_view(old(errors)@) + impossible_spreads(
            schema,
            document,
            sels@,
            ty as int,
        ),
{
    let ghost start = errors_view(errors@);
    let mut k: usize = 0;
    while k < sels.len()
        invariant
            k <= sels.len(),
            valid_type(*schema, ty as int),
            errors_view(errors@) == start + impossible_spreads(schema, document, sels@.take(k as int), ty as int),
        decreases sels.len() - k,
    {
        proof {
            assert(sels@.take(k + 1).drop_last() =~= sels@.take(k as int));
            assert(sels@.take(k + 1).last() == sels@[k as int]);
        }
        let ghost before = errors@;
        match &sels[k] {
            Selection::FragmentSpread(s) => match document.fragment_definition(&s.name) {
                Some(j) => match schema.get_type_definition(&document.fragment_definitions[j].type_condition) {
                    Some(ft) => if spread_is_not_possible(schema, ty, ft) {
                        errors.push(
                            Error::FragmentSpreadIsNotPossible { fragment_spread: s, parent_type: &schema.types[ty] },
                        );
                        proof { assert(errors_view(errors@) =~= errors_view(before).push(errors@.last()@)); }
                    },
                    None => {},
                },
                None => {},
            },
            Selection::InlineFragment(i) => match &i.type_condition {
                Some(tc) => match schema.get_type_definition(tc) {
                    Some(ft) => if spread_is_not_possible(schema, ty, ft) {
                        errors.push(
                            Error::InlineFragmentSpreadIsNotPossible {
                                inline_fragment: i,
                                parent_type: &schema.types[ty],
                            },
                        );
                        proof { assert(errors_view(errors@) =~= errors_view(before).push(errors@.last()@)); }
                    },
                    None => {},
                },
                None => {},
            },
            Selection::Field(_) => {},
        }
        k += 1;
        proof {
            assert(errors_view(errors@) =~= start + impossible_spreads(
                schema,
                document,
                sels@.take(k as int),
                ty as int,
            ));
        }
    }
    proof { assert(sels@.take(k as int) =~= sels@); }
}

/// Reports each fragment spread and inline fragment that no object could match where
/// it stands.
pub fn fragment_spread_is_possible<'a>(document: &'a ExecutableDocument, schema: &'a SchemaDefinition) -> (r: Vec<
    Error<'a>,
>)
    ensures
        errors_view(r@) == fragment_spread_is_possible_errors(schema, document),
{
    let sets = SelectionSets::new(document);
    let visits = sets.visits(schema, document);
    let ghost nodes = nodes_view(sets.nodes@);
    let ghost vv = visits_view(visits@);
    let mut errors: Vec<Error<'a>> = Vec::new();
    let mut i: usize = 0;
    proof { assert(errors_view(errors@) =~= Seq::<ErrorView<'a>>::empty()); }
    while i < visits.len()
        invariant
            i <= visits.len(),
            nodes == nodes_view(sets.nodes@),
            nodes == document_nodes(document),
            vv == visits_view(visits@),
            visits_valid(*schema, nodes, visits@),
            errors_view(errors@) == visits_impossible_spreads(schema, document, nodes, vv.take(i as int)),
        decreases visits.len() - i,
    {
        proof {
            assert(vv.take(i + 1).drop_last() =~= vv.take(i as int));
            assert(vv.take(i + 1).last() == vv[i as int]);
            assert(visits@[i as int].0 < nodes.len());
        }
        let (n, t) = visits[i];
        proof { assert(nodes[n as int].selections == sets.nodes@[n as int].selections); }
        set_impossible_spreads(schema, document, sets.nodes[n].selections, t, &mut errors);
        i += 1;
    }
    proof { assert(vv.take(i as int) =~= vv); }
    errors
}

} // verus!
