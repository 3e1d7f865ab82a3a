//! A directive defined by the schema may only be used at the locations its definition
//! lists. Directives are taken in the order of `document_directive_uses`; undefined
//! ones are left to `directives_are_defined`.
use vstd::prelude::*;
use crate::document::ExecutableDocument;
use crate::executable::document::directive_uses::{
    DirectiveUse, collect_directive_uses, document_directive_uses,
};
use crate::executable::document::error::{Error, ErrorView, errors_view};
use crate::executable::document::rules::directives_are_defined::{
    directives_are_defined_errors, undefined_directives,
};
use crate::schema::{DirectiveLocation, SchemaDefinition};

verus! {

pub open spec fn misplaced_directives<'a>(schema: &'a SchemaDefinition, uses: Seq<DirectiveUse<'a>>) -> Seq<
    ErrorView<'a>,
>
    decreases uses.len(),
{
    if uses.len() == 0 {
        Seq::empty()
    } else {
        let u = uses.last();
        misplaced_directives(schema, uses.drop_last()) + match schema.directive_index(u.directive.name@) {
            Some(k) => if !schema.directives@[k].locations@.contains(u.location) {
                seq![
                    ErrorView::DirectiveInInvalidLocation {
                        directive: u.directive,
                        directive_definition: &schema.directives@[k],
                        location: u.location,
                    },
                ]
            } else {
                Seq::empty()
            },
            None => Seq::empty(),
        }
    }
}

/// The errors of the rule.
pub open spec fn directives_are_in_valid_locations_errors<'a>(
    schema: &'a SchemaDefinition,
    document: &'a ExecutableDocument,
) -> Seq<ErrorView<'a>> {
    misplaced_directives(schema, document_directive_uses(*document))
}

fn allows(locations: &Vec<DirectiveLocation>, location: DirectiveLocation) -> (r: bool)
    ensures
        r == locations@.contains(location),
{
    let mut i: usize = 0;
    while i < locations.len()
        invariant
            i <= locations.len(),
            forall|j: int| 0 <= j < i ==> locations@[j] != location,
        decreases locations.len() - i,
    {
        if locations[i] == location {
            proof { assert(locations@[i as int] == location); }
            return true;
        }
        i += 1;
    }
    false
}

/// Reports each directive used where its definition does not allow it.
pub fn directives_are_in_valid_locations<'a>(
    document: &'a ExecutableDocument,
    schema: &'a SchemaDefinition,
) -> (r: Vec<Error<'a>>)
    ensures
        errors_view(r@) == directives_are_in_valid_locations_errors(schema, document),
{
    let uses = collect_directive_uses(document);
    let mut errors: Vec<Error<'a>> = Vec::new();
    let mut i: usize = 0;
    proof { assert(errors_view(errors@) =~= misplaced_directives(schema, uses@.take(0))); }
    while i < uses.len()
        invariant
            i <= uses.len(),
            errors_view(errors@) == misplaced_directives(schema, uses@.take(i as int)),
        decreases uses.len() - i,
    {
        proof {
            assert(uses@.take(i + 1).drop_last() =~= uses@.take(i as int));
            assert(uses@.take(i + 1).last() == uses@[i as int]);
        }
        let ghost before = errors_view(errors@);
        let u = &uses[i];
        match schema.get_directive_definition(&u.directive.name) {
            Some(k) => if !allows(&schema.directives[k].locations, u.location) {
                errors.push(
                    Error::DirectiveInInvalidLocation {
                        directive: u.directive,
                        directive_definition: &schema.directives[k],
                        location: u.location,
                    },
                );
                proof { assert(errors_view(errors@) =~= before.push(errors@.last()@)); }
            },
            None => {},
        }
        i += 1;
        proof { assert(errors_view(errors@) =~= misplaced_directives(schema, uses@.take(i as int))); }
    }
    proof { assert(uses@.take(i as int) =~= uses@); }
    errors
}

proof fn lemma_directive_uses_reported_once<'a>(schema: &'a SchemaDefinition, uses: Seq<DirectiveUse<'a>>)
    ensures
        undefined_directives(*schema, uses).len() + misplaced_directives(schema, uses).len() <= uses.len(),
    decreases uses.len(),
{
    if uses.len() > 0 {
        lemma_directive_uses_reported_once(schema, uses.drop_last());
    }
}

/// A directive use is reported by at most one of the two directive rules: undefined,
/// or defined and out of place. Together they report no more errors than the
/// document has directive uses.
pub proof fn lemma_directive_rules_disjoint<'a>(schema: &'a SchemaDefinition, document: &'a ExecutableDocument)
    ensures
        directives_are_defined_errors(schema, document).len() + directives_are_in_valid_locations_errors(
            schema,
            document,
        ).len() <= document_directive_uses(*document).len(),
{
    lemma_directive_uses_reported_once(schema, document_directive_uses(*document));
}

} // verus!
