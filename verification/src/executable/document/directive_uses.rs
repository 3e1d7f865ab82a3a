//! Every directive used in a document, with the location it is used at: for each
//! operation its own directives, those of its variable definitions, then those within
//! its selection set; then for each fragment definition its own directives and those
//! within its selection set. Within a selection set each selection's directives come
//! before those nested in it.
use vstd::prelude::*;
use crate::document::{
    ExecutableDocument, FragmentDefinition, OperationDefinition, OperationType, Selection,
    VariableDefinition,
};
use crate::schema::DirectiveLocation;
use crate::value::Directive;

verus! {

/// A directive and the location it is used at.
pub struct DirectiveUse<'a> {
    pub directive: &'a Directive,
    pub location: DirectiveLocation,
}

pub open spec fn uses_at<'a>(ds: Seq<Directive>, location: DirectiveLocation) -> Seq<DirectiveUse<'a>>
    decreases ds.len(),
{
    if ds.len() == 0 {
        Seq::empty()
    } else {
        uses_at(ds.drop_last(), location).push(DirectiveUse { directive: &ds.last(), location })
    }
}

pub open spec fn selections_uses<'a>(sels: Seq<Selection>) -> Seq<DirectiveUse<'a>>
    decreases sels,
{
    if sels.len() == 0 {
        Seq::empty()
    } else {
        selections_uses(sels.drop_last()) + selection_uses(sels.last())
    }
}

pub open spec fn selection_uses<'a>(sel: Selection) -> Seq<DirectiveUse<'a>>
    decreases sel,
{
    match sel {
        Selection::Field(f) => uses_at(f.directives@, DirectiveLocation::Field) + selections_uses(
            f.selection_set@,
        ),
        Selection::InlineFragment(i) => uses_at(i.directives@, DirectiveLocation::InlineFragment)
            + selections_uses(i.selection_set@),
        Selection::FragmentSpread(s) => uses_at(s.directives@, DirectiveLocation::FragmentSpread),
    }
}

pub open spec fn variable_definitions_uses<'a>(vds: Seq<VariableDefinition>) -> Seq<DirectiveUse<'a>>
    decreases vds.len(),
{
    if vds.len() == 0 {
        Seq::empty()
    } else {
        variable_definitions_uses(vds.drop_last()) + uses_at(
            vds.last().directives@,
            DirectiveLocation::VariableDefinition,
        )
    }
}

/// The location of an operation's own directives.
pub open spec fn operation_location(t: OperationType) -> DirectiveLocation {
    match t {
        OperationType::Query => DirectiveLocation::Query,
        OperationType::Mutation => DirectiveLocation::Mutation,
        OperationType::Subscription => DirectiveLocation::Subscription,
    }
}

pub open spec fn operation_uses<'a>(op: OperationDefinition) -> Seq<DirectiveUse<'a>> {
    uses_at(op.directives@, operation_location(op.operation_type)) + variable_definitions_uses(
        op.variable_definitions@,
    ) + selections_uses(op.selection_set@)
}

pub open spec fn fragment_uses<'a>(f: FragmentDefinition) -> Seq<DirectiveUse<'a>> {
    uses_at(f.directives@, DirectiveLocation::FragmentDefinition) + selections_uses(f.selection_set@)
}

pub open spec fn operations_uses<'a>(ops: Seq<OperationDefinition>) -> Seq<DirectiveUse<'a>>
    decreases ops.len(),
{
    if ops.len() == 0 {
        Seq::empty()
    } else {
        operations_uses(ops.drop_last()) + operation_uses(ops.last())
    }
}

pub open spec fn fragments_uses<'a>(frags: Seq<FragmentDefinition>) -> Seq<DirectiveUse<'a>>
    decreases frags.len(),
{
    if frags.len() == 0 {
        Seq::empty()
    } else {
        fragments_uses(frags.drop_last()) + fragment_uses(frags.last())
    }
}

/// Every directive of the document with its location.
pub open spec fn document_directive_uses<'a>(document: ExecutableDocument) -> Seq<DirectiveUse<'a>> {
    operations_uses(document.operation_definitions@) + fragments_uses(document.fragment_definitions@)
}

fn collect_uses_at<'a>(ds: &'a Vec<Directive>, location: DirectiveLocation, out: &mut Vec<DirectiveUse<'a>>)
    ensures
        final(out)@ == old(out)@ + uses_at(ds@, location),
{
    let ghost start = out@;
    let mut i: usize = 0;
    proof { assert(start + uses_at(ds@.take(0), location) =~= start); }
    while i < ds.len()
        invariant
            i <= ds.len(),
            out@ == start + uses_at(ds@.take(i as int), location),
        decreases ds.len() - i,
    {
        proof {
            assert(ds@.take(i + 1).drop_last() =~= ds@.take(i as int));
            assert(ds@.take(i + 1).last() == ds@[i as int]);
        }
        out.push(DirectiveUse { directive: &ds[i], location });
        i += 1;
        proof { assert(out@ =~= start + uses_at(ds@.take(i as int), location)); }
    }
    proof { assert(ds@.take(i as int) =~= ds@); }
}

fn collect_selections_uses<'a>(sels: &'a Vec<Selection>, out: &mut Vec<DirectiveUse<'a>>)
    ensures
        final(out)@ == old(out)@ + selections_uses(sels@),
    decreases sels@,
{
    let ghost start = out@;
    let mut i: usize = 0;
    proof { assert(start + selections_uses(sels@.take(0)) =~= start); }
    while i < sels.len()
        invariant
            i <= sels.len(),
            out@ == start + selections_uses(sels@.take(i as int)),
        decreases sels.len() - i,
    {
        proof {
            assert(sels@.take(i + 1).drop_last() =~= sels@.take(i as int));
            assert(sels@.take(i + 1).last() == sels@[i as int]);
            assert(decreases_to!(sels@ => sels@[i as int]));
        }
        collect_selection_uses(&sels[i], out);
        i += 1;
        proof { assert(out@ =~= start + selections_uses(sels@.take(i as int))); }
    }
    proof { assert(sels@.take(i as int) =~= sels@); }
}

fn collect_selection_uses<'a>(sel: &'a Selection, out: &mut Vec<DirectiveUse<'a>>)
    ensures
        final(out)@ == old(out)@ + selection_uses(*sel),
    decreases *sel,
{
    let ghost start = out@;
    match sel {
        Selection::Field(f) => {
            collect_uses_at(&f.directives, DirectiveLocation::Field, out);
            proof {
                assert(decreases_to!(*sel => (*sel)->Field_0));
                assert(decreases_to!(f.selection_set => f.selection_set@));
            }
            collect_selections_uses(&f.selection_set, out);
            proof { assert(out@ =~= start + selection_uses(*sel)); }
        },
        Selection::InlineFragment(i) => {
            collect_uses_at(&i.directives, DirectiveLocation::InlineFragment, out);
            proof {
                assert(decreases_to!(*sel => (*sel)->InlineFragment_0));
                assert(decreases_to!(i.selection_set => i.selection_set@));
            }
            collect_selections_uses(&i.selection_set, out);
            proof { assert(out@ =~= start + selection_uses(*sel)); }
        },
        Selection::FragmentSpread(s) => {
            collect_uses_at(&s.directives, DirectiveLocation::FragmentSpread, out);
        },
    }
}

/// Collects every directive of the document with its location.
pub fn collect_directive_uses<'a>(document: &'a ExecutableDocument) -> (r: Vec<DirectiveUse<'a>>)
    ensures
        r@ == document_directive_uses(*document),
{
    let mut out: Vec<DirectiveUse<'a>> = Vec::new();
    let ops = &document.operation_definitions;
    let mut i: usize = 0;
    while i < ops.len()
        invariant
            i <= ops.len(),
            *ops == document.operation_definitions,
            out@ == operations_uses(ops@.take(i as int)),
        decreases ops.len() - i,
    {
        proof {
            assert(ops@.take(i + 1).drop_last() =~= ops@.take(i as int));
            assert(ops@.take(i + 1).last() == ops@[i as int]);
        }
        let op = &ops[i];
        let ghost before = out@;
        let location = match op.operation_type {
            OperationType::Query => DirectiveLocation::Query,
            OperationType::Mutation => DirectiveLocation::Mutation,
            OperationType::Subscription => DirectiveLocation::Subscription,
        };
        collect_uses_at(&op.directives, location, &mut out);
        let ghost middle = out@;
        let vds = &op.variable_definitions;
        let mut k: usize = 0;
        proof { assert(middle + variable_definitions_uses(vds@.take(0)) =~= middle); }
        while k < vds.len()
            invariant
                k <= vds.len(),
                out@ == middle + variable_definitions_uses(vds@.take(k as int)),
            decreases vds.len() - k,
        {
            proof {
                assert(vds@.take(k + 1).drop_last() =~= vds@.take(k as int));
                assert(vds@.take(k + 1).last() == vds@[k as int]);
            }
            collect_uses_at(&vds[k].directives, DirectiveLocation::VariableDefinition, &mut out);
            k += 1;
            proof { assert(out@ =~= middle + variable_definitions_uses(vds@.take(k as int))); }
        }
        proof { assert(vds@.take(k as int) =~= vds@); }
        collect_selections_uses(&op.selection_set, &mut out);
        proof { assert(out@ =~= before + operation_uses(*op)); }
        i += 1;
    }
    proof { assert(ops@.take(i as int) =~= ops@); }
    let ghost middle = out@;
    let frags = &document.fragment_definitions;
    let mut j: usize = 0;
    proof { assert(middle + fragments_uses(frags@.take(0)) =~= middle); }
    while j < frags.len()
        invariant
            j <= frags.len(),
            *frags == document.fragment_definitions,
            out@ == middle + fragments_uses(frags@.take(j as int)),
        decreases frags.len() - j,
    {
        proof {
            assert(frags@.take(j + 1).drop_last() =~= frags@.take(j as int));
            assert(frags@.take(j + 1).last() == frags@[j as int]);
        }
        let ghost before = out@;
        collect_uses_at(&frags[j].directives, DirectiveLocation::FragmentDefinition, &mut out);
        collect_selections_uses(&frags[j].selection_set, &mut out);
        proof { assert(out@ =~= before + fragment_uses(frags@[j as int])); }
        j += 1;
        proof { assert(out@ =~= middle + fragments_uses(frags@.take(j as int))); }
    }
    proof { assert(frags@.take(j as int) =~= frags@); }
    out
}

} // verus!
