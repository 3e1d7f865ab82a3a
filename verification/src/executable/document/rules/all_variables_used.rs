//! Every variable an operation defines must be used: in the arguments within the
//! operation, or within a fragment the operation reaches through its spreads, directly
//! or through other fragments. Unused variables are reported operation by operation,
//! in the order they are defined.
use vstd::prelude::*;
use crate::document::{ExecutableDocument, FragmentDefinition, FragmentSpread, OperationDefinition, VariableDefinition};
use crate::executable::document::error::{Error, ErrorView, errors_view};
use crate::executable::document::rules::fragment_spreads_must_not_form_cycles::{
    lemma_unvisited_push, unvisited,
};
use crate::executable::document::traversal::{
    collect_directives_variables, collect_selections_variables, collect_spreads, directives_variables,
    selections_variables, spreads_in,
};
use crate::names::contains_name;
use crate::schema::strings_model;

verus! {

/// The variables an operation uses itself, in its directives and its selection set.
pub open spec fn operation_own_variables(op: OperationDefinition) -> Seq<Seq<char>> {
    directives_variables(op.directives@) + selections_variables(op.selection_set@)
}

/// The variables a fragment uses itself, in its directives and its selection set.
pub open spec fn fragment_own_variables(f: FragmentDefinition) -> Seq<Seq<char>> {
    directives_variables(f.directives@) + selections_variables(f.selection_set@)
}

/// Whether the fragment named `current`, or a fragment it reaches without passing
/// through `visited`, uses `variable`.
pub open spec fn fragment_uses(
    document: ExecutableDocument,
    current: Seq<char>,
    variable: Seq<char>,
    visited: Seq<Seq<char>>,
) -> bool
    decreases unvisited(document.fragment_definitions@, visited), 0int, 0int,
{
    if visited.contains(current) {
        false
    } else {
        match document.fragment_index(current) {
            Some(k) => if 0 <= k < document.fragment_definitions@.len() {
                proof {
                    crate::common::lemma_last_index(
                        document.fragment_definitions@,
                        |f: FragmentDefinition| f.name@ == current,
                    );
                    lemma_unvisited_push(document.fragment_definitions@, visited, current, k);
                }
                fragment_own_variables(document.fragment_definitions@[k]).contains(variable)
                    || spreads_use(
                    document,
                    spreads_in(document.fragment_definitions@[k].selection_set@),
                    variable,
                    visited.push(current),
                )
            } else {
                false
            },
            None => false,
        }
    }
}

/// Whether one of `spreads` leads to a fragment that uses `variable`.
pub open spec fn spreads_use(
    document: ExecutableDocument,
    spreads: Seq<&FragmentSpread>,
    variable: Seq<char>,
    visited: Seq<Seq<char>>,
) -> bool
    decreases unvisited(document.fragment_definitions@, visited), 1int, spreads.len(),
{
    if spreads.len() == 0 {
        false
    } else {
        fragment_uses(document, spreads[0].name@, variable, visited) || spreads_use(
            document,
            spreads.drop_first(),
            variable,
            visited,
        )
    }
}

/// Whether the operation uses `variable`, itself or through the fragments it reaches.
pub open spec fn operation_uses(document: ExecutableDocument, op: OperationDefinition, variable: Seq<char>) -> bool {
    operation_own_variables(op).contains(variable) || spreads_use(
        document,
        spreads_in(op.selection_set@),
        variable,
        Seq::empty(),
    )
}

pub open spec fn unused_in_operation<'a>(
    document: ExecutableDocument,
    op: OperationDefinition,
    vds: Seq<VariableDefinition>,
) -> Seq<ErrorView<'a>>
    decreases vds.len(),
{
    if vds.len() == 0 {
        Seq::empty()
    } else {
        unused_in_operation(document, op, vds.drop_last()) + if operation_uses(
            document,
            op,
            vds.last().variable@,
        ) {
            Seq::empty()
        } else {
            seq![ErrorView::VariableDefinitionUnused { variable_definition: &vds.last() }]
        }
    }
}

pub open spec fn unused_in_operations<'a>(document: ExecutableDocument, ops: Seq<OperationDefinition>) -> Seq<
    ErrorView<'a>,
>
    decreases ops.len(),
{
    if ops.len() == 0 {
        Seq::empty()
    } else {
        unused_in_operations(document, ops.drop_last()) + unused_in_operation(
            document,
            ops.last(),
            ops.last().variable_definitions@,
        )
    }
}

/// The errors of the rule.
pub open spec fn all_variables_used_errors<'a>(document: ExecutableDocument) -> Seq<ErrorView<'a>> {
    unused_in_operations(document, document.operation_definitions@)
}

fn fragment_uses_variable(
    document: &ExecutableDocument,
    current: &String,
    variable: &String,
    visited: &mut Vec<String>,
) -> (r: bool)
    ensures
        r == fragment_uses(*document, current@, variable@, strings_model(old(visited)@)),
        final(visited)@ == old(visited)@,
    decreases unvisited(document.fragment_definitions@, strings_model(old(visited)@)), 0int,
{
    if contains_name(visited, current) {
        return false;
    }
    let k = match document.fragment_definition(current) {
        Some(k) => k,
        None => return false,
    };
    let fragment = &document.fragment_definitions[k];
    let mut own: Vec<String> = Vec::new();
    collect_directives_variables(&fragment.directives, &mut own);
    collect_selections_variables(&fragment.selection_set, &mut own);
    proof {
        assert(strings_model(own@) =~= fragment_own_variables(*fragment));
    }
    if contains_name(&own, variable) {
        return true;
    }
    let mut spreads: Vec<&FragmentSpread> = Vec::new();
    collect_spreads(&fragment.selection_set, &mut spreads);
    proof {
        assert(spreads@ =~= spreads_in(fragment.selection_set@));
        crate::common::lemma_last_index(
            document.fragment_definitions@,
            |f: FragmentDefinition| f.name@ == current@,
        );
        lemma_unvisited_push(
            document.fragment_definitions@,
            strings_model(visited@),
            current@,
            k as int,
        );
    }
    let ghost before = visited@;
    visited.push(current.clone());
    proof { assert(strings_model(visited@) =~= strings_model(before).push(current@)); }
    let r = spreads_use_variable(document, &spreads, variable, visited);
    visited.pop();
    proof { assert(visited@ =~= before); }
    r
}

fn spreads_use_variable(
    document: &ExecutableDocument,
    spreads: &Vec<&FragmentSpread>,
    variable: &String,
    visited: &mut Vec<String>,
) -> (r: bool)
    ensures
        r == spreads_use(*document, spreads@, variable@, strings_model(old(visited)@)),
        final(visited)@ == old(visited)@,
    decreases unvisited(document.fragment_definitions@, strings_model(old(visited)@)), 1int,
{
    let ghost v = strings_model(visited@);
    let ghost start = visited@;
    let mut i: usize = 0;
    proof { assert(spreads@.skip(0) =~= spreads@); }
    while i < spreads.len()
        invariant
            i <= spreads.len(),
            visited@ == start,
            start == old(visited)@,
            v == strings_model(visited@),
            spreads_use(*document, spreads@, variable@, v) == spreads_use(
                *document,
                spreads@.skip(i as int),
                variable@,
                v,
            ),
        decreases spreads.len() - i,
    {
        proof {
            assert(spreads@.skip(i as int)[0] == spreads@[i as int]);
            assert(spreads@.skip(i as int).drop_first() =~= spreads@.skip(i + 1));
        }
        if fragment_uses_variable(document, &spreads[i].name, variable, visited) {
            return true;
        }
        i += 1;
    }
    false
}

fn operation_uses_variable(
    document: &ExecutableDocument,
    op: &OperationDefinition,
    own: &Vec<String>,
    spreads: &Vec<&FragmentSpread>,
    variable: &String,
) -> (r: bool)
    requires
        strings_model(own@) == operation_own_variables(*op),
        spreads@ == spreads_in(op.selection_set@),
    ensures
        r == operation_uses(*document, *op, variable@),
{
    if contains_name(own, variable) {
        return true;
    }
    let mut visited: Vec<String> = Vec::new();
    proof { assert(strings_model(visited@) =~= Seq::<Seq<char>>::empty()); }
    spreads_use_variable(document, spreads, variable, &mut visited)
}

/// Reports each variable definition that its operation does not use.
pub fn all_variables_used<'a>(document: &'a ExecutableDocument) -> (r: Vec<Error<'a>>)
    ensures
        errors_view(r@) == all_variables_used_errors(*document),
{
    let ops = &document.operation_definitions;
    let mut errors: Vec<Error<'a>> = Vec::new();
    let mut i: usize = 0;
    while i < ops.len()
        invariant
            i <= ops.len(),
            *ops == document.operation_definitions,
            errors_view(errors@) == unused_in_operations(*document, ops@.take(i as int)),
        decreases ops.len() - i,
    {
        proof {
            assert(ops@.take(i + 1).drop_last() =~= ops@.take(i as int));
            assert(ops@.take(i + 1).last() == ops@[i as int]);
        }
        let op: &'a OperationDefinition = &ops[i];
        let mut own: Vec<String> = Vec::new();
        collect_directives_variables(&op.directives, &mut own);
        collect_selections_variables(&op.selection_set, &mut own);
        proof { assert(strings_model(own@) =~= operation_own_variables(*op)); }
        let mut spreads: Vec<&FragmentSpread> = Vec::new();
        collect_spreads(&op.selection_set, &mut spreads);
        proof { assert(spreads@ =~= spreads_in(op.selection_set@)); }
        let vds = &op.variable_definitions;
        let ghost start = errors@;
        let mut j: usize = 0;
        proof {
            assert(errors_view(start) + unused_in_operation(*document, *op, vds@.take(0)) =~= errors_view(
                start,
            ));
        }
        while j < vds.len()
            invariant
                j <= vds.len(),
                *vds == op.variable_definitions,
                strings_model(own@) == operation_own_variables(*op),
                spreads@ == spreads_in(op.selection_set@),
                errors_view(errors@) == errors_view(start) + unused_in_operation(
                    *document,
                    *op,
                    vds@.take(j as int),
                ),
            decreases vds.len() - j,
        {
            proof {
                assert(vds@.take(j + 1).drop_last() =~= vds@.take(j as int));
                assert(vds@.take(j + 1).last() == vds@[j as int]);
            }
            let vd: &'a VariableDefinition = &vds[j];
            let ghost before = errors@;
            if !operation_uses_variable(document, op, &own, &spreads, &vd.variable) {
                errors.push(Error::VariableDefinitionUnused { variable_definition: vd });
            }
            proof {
                let step: Seq<ErrorView<'a>> = if operation_uses(*document, *op, vd.variable@) {
                    Seq::empty()
                } else {
                    seq![ErrorView::VariableDefinitionUnused { variable_definition: vd }]
                };
                assert(unused_in_operation(*document, *op, vds@.take(j + 1)) == unused_in_operation(
                    *document,
                    *op,
                    vds@.take(j as int),
                ) + step);
                assert(errors_view(errors@) =~= errors_view(before) + step);
                assert(errors_view(errors@) =~= errors_view(start) + unused_in_operation(
                    *document,
                    *op,
                    vds@.take(j + 1),
                ));
            }
            j += 1;
        }
        proof { assert(vds@.take(j as int) =~= vds@); }
        i += 1;
    }
    proof { assert(ops@.take(i as int) =~= ops@); }
    errors
}

/// The fragment named `a` has a spread of the fragment named `b` among its selections.
pub open spec fn fragment_spreads(document: ExecutableDocument, a: Seq<char>, b: Seq<char>) -> bool {
    match document.fragment_index(a) {
        Some(k) => 0 <= k < document.fragment_definitions@.len() && exists|j: int|
            0 <= j < spreads_in(document.fragment_definitions@[k].selection_set@).len()
                && (#[trigger] spreads_in(document.fragment_definitions@[k].selection_set@)[j]).name@ == b,
        None => false,
    }
}

/// The fragment named `a` uses `variable` in its own directives or selections.
pub open spec fn fragment_uses_itself(document: ExecutableDocument, a: Seq<char>, variable: Seq<char>) -> bool {
    match document.fragment_index(a) {
        Some(k) => 0 <= k < document.fragment_definitions@.len() && fragment_own_variables(
            document.fragment_definitions@[k],
        ).contains(variable),
        None => false,
    }
}

/// Fragments named in `chain`, each spreading the next, no name twice.
pub open spec fn spread_chain(document: ExecutableDocument, chain: Seq<Seq<char>>) -> bool {
    &&& chain.len() > 0
    &&& forall|i: int, j: int| 0 <= i < j < chain.len() ==> #[trigger] chain[i] != #[trigger] chain[j]
    &&& forall|i: int| 0 <= i < chain.len() - 1 ==> fragment_spreads(document, #[trigger] chain[i], chain[i + 1])
}

proof fn lemma_spreads_use_member(
    document: ExecutableDocument,
    spreads: Seq<&FragmentSpread>,
    variable: Seq<char>,
    visited: Seq<Seq<char>>,
    j: int,
)
    requires
        0 <= j < spreads.len(),
        fragment_uses(document, spreads[j].name@, variable, visited),
    ensures
        spreads_use(document, spreads, variable, visited),
    decreases spreads.len(),
{
    if j > 0 {
        assert(spreads.drop_first()[j - 1] == spreads[j]);
        lemma_spreads_use_member(document, spreads.drop_first(), variable, visited, j - 1);
    }
}

proof fn lemma_spread_chain_from(document: ExecutableDocument, chain: Seq<Seq<char>>, variable: Seq<char>, i: int)
    requires
        spread_chain(document, chain),
        fragment_uses_itself(document, chain.last(), variable),
        0 <= i < chain.len(),
    ensures
        fragment_uses(document, chain[i], variable, chain.take(i)),
    decreases chain.len() - i,
{
    let visited = chain.take(i);
    assert(!visited.contains(chain[i])) by {
        if visited.contains(chain[i]) {
            let x = choose|x: int| 0 <= x < visited.len() && visited[x] == chain[i];
            assert(chain[x] == chain[i]);
        }
    }
    if i == chain.len() - 1 {
        assert(chain[i] == chain.last());
    } else {
        assert(fragment_spreads(document, chain[i], chain[i + 1]));
        lemma_spread_chain_from(document, chain, variable, i + 1);
        assert(chain.take(i + 1) =~= visited.push(chain[i]));
        let k = document.fragment_index(chain[i]).unwrap();
        let spreads = spreads_in(document.fragment_definitions@[k].selection_set@);
        let j = choose|j: int| 0 <= j < spreads.len() && (#[trigger] spreads[j]).name@ == chain[i + 1];
        lemma_spreads_use_member(document, spreads, variable, visited.push(chain[i]), j);
    }
}

/// A fragment uses a variable that any fragment it reaches through its spreads uses:
/// along a chain of fragments each spreading the next, the first uses every variable
/// the last uses itself.
pub proof fn lemma_fragment_uses_through_spreads(
    document: ExecutableDocument,
    chain: Seq<Seq<char>>,
    variable: Seq<char>,
)
    requires
        spread_chain(document, chain),
        fragment_uses_itself(document, chain.last(), variable),
    ensures
        fragment_uses(document, chain[0], variable, Seq::empty()),
{
    lemma_spread_chain_from(document, chain, variable, 0);
    assert(chain.take(0) =~= Seq::<Seq<char>>::empty());
}

/// An operation uses every variable used by a fragment it reaches through spreads:
/// when the operation spreads the first fragment of such a chain, it uses what the last
/// fragment uses, so that variable is not reported unused.
pub proof fn lemma_operation_uses_through_spreads(
    document: ExecutableDocument,
    op: OperationDefinition,
    chain: Seq<Seq<char>>,
    variable: Seq<char>,
    j: int,
)
    requires
        spread_chain(document, chain),
        fragment_uses_itself(document, chain.last(), variable),
        0 <= j < spreads_in(op.selection_set@).len(),
        spreads_in(op.selection_set@)[j].name@ == chain[0],
    ensures
        operation_uses(document, op, variable),
{
    lemma_fragment_uses_through_spreads(document, chain, variable);
    lemma_spreads_use_member(document, spreads_in(op.selection_set@), variable, Seq::empty(), j);
}

/// An operation that neither uses a variable itself nor spreads any fragment does not
/// use it.
pub proof fn lemma_operation_without_spreads_uses_own_variables(
    document: ExecutableDocument,
    op: OperationDefinition,
    variable: Seq<char>,
)
    requires
        spreads_in(op.selection_set@).len() == 0,
    ensures
        operation_uses(document, op, variable) == operation_own_variables(op).contains(variable),
{
}

} // verus!
