//! The selection sets of a document, numbered: each operation's selection set and the
//! sets nested in it, in document order with every set before the sets within it,
//! then each fragment definition's in the same way. A node records, for each of its
//! selections, the node of that selection's own set (fields and inline fragments
//! have one).
use vstd::prelude::*;
use crate::document::{
    ExecutableDocument, FragmentDefinition, OperationDefinition, OperationType, Selection,
    selection_wf, selections_wf,
};
use crate::value::Span;
use crate::schema::{SchemaDefinition, field_index, find_field, spec_base_name, spec_fields_of};

verus! {

pub struct SetNode<'a> {
    pub selections: &'a Vec<Selection>,
    pub children: Vec<Option<usize>>,
    pub span: Span,
}

pub struct SetNodeView<'a> {
    pub selections: &'a Vec<Selection>,
    pub children: Seq<Option<usize>>,
    pub span: Span,
}

impl<'a> View for SetNode<'a> {
    type V = SetNodeView<'a>;

    open spec fn view(&self) -> SetNodeView<'a> {
        SetNodeView { selections: self.selections, children: self.children@, span: self.span }
    }
}

pub open spec fn nodes_view<'a>(nodes: Seq<SetNode<'a>>) -> Seq<SetNodeView<'a>> {
    nodes.map_values(|n: SetNode<'a>| n@)
}

/// The selection set of a selection, for a field or an inline fragment.
pub open spec fn child_selections<'a>(sel: &'a Selection) -> Option<&'a Vec<Selection>> {
    match sel {
        Selection::Field(f) => Some(&f.selection_set),
        Selection::InlineFragment(i) => Some(&i.selection_set),
        Selection::FragmentSpread(_) => None,
    }
}

/// The span of the selection set of a field or an inline fragment.
pub open spec fn child_span(sel: &Selection) -> Span {
    match sel {
        Selection::Field(f) => f.selection_set_span,
        Selection::InlineFragment(i) => i.selection_set_span,
        Selection::FragmentSpread(s) => s.name_span,
    }
}

/// The nodes of `sels`, a set whose span is `span`, and of every set within it,
/// numbered from `base`.
pub open spec fn set_nodes<'a>(sels: &'a Vec<Selection>, span: Span, base: nat) -> Seq<SetNodeView<'a>>
    decreases sels@, 2nat, 0nat,
{
    seq![SetNodeView { selections: sels, children: child_nodes(sels, sels@.len(), base + 1), span }]
        + subtree_nodes(sels, sels@.len(), base + 1)
}

/// The nodes of the sets within the first `k` selections, numbered from `start`.
pub open spec fn subtree_nodes<'a>(sels: &'a Vec<Selection>, k: nat, start: nat) -> Seq<
    SetNodeView<'a>,
>
    decreases sels@, 0nat, k,
{
    if k == 0 || k > sels@.len() {
        Seq::empty()
    } else {
        let prev = subtree_nodes(sels, (k - 1) as nat, start);
        prev + match child_selections(&sels@[k - 1]) {
            Some(c) => {
                proof {
                    assert(decreases_to!(sels@ => sels@[k - 1]));
                    match sels@[k - 1] {
                        Selection::Field(f) => {
                            assert(decreases_to!(sels@[k - 1] => f));
                            assert(decreases_to!(f.selection_set => f.selection_set@));
                        },
                        Selection::InlineFragment(i) => {
                            assert(decreases_to!(sels@[k - 1] => i));
                            assert(decreases_to!(i.selection_set => i.selection_set@));
                        },
                        _ => {},
                    }
                }
                set_nodes(c, child_span(&sels@[k - 1]), start + prev.len())
            },
            None => Seq::empty(),
        }
    }
}

/// The node numbers of the sets of the first `k` selections.
pub open spec fn child_nodes<'a>(sels: &'a Vec<Selection>, k: nat, start: nat) -> Seq<Option<usize>>
    decreases sels@, 1nat, k,
{
    if k == 0 || k > sels@.len() {
        Seq::empty()
    } else {
        child_nodes(sels, (k - 1) as nat, start).push(
            match child_selections(&sels@[k - 1]) {
                Some(_) => Some((start + subtree_nodes(sels, (k - 1) as nat, start).len()) as usize),
                None => None,
            },
        )
    }
}

/// A node whose children come after it and are nodes of `nodes`.
pub open spec fn node_ok<'a>(nodes: Seq<SetNodeView<'a>>, t: int) -> bool {
    &&& nodes[t].children.len() == nodes[t].selections@.len()
    &&& forall|i: int|
        0 <= i < nodes[t].children.len() ==> (#[trigger] nodes[t].children[i] matches Some(c) ==> t < c
            < nodes.len())
}

pub open spec fn nodes_ok_from<'a>(nodes: Seq<SetNodeView<'a>>, lo: int) -> bool {
    forall|t: int| lo <= t < nodes.len() ==> #[trigger] node_ok(nodes, t)
}

/// Every value in the selection sets of the nodes from `lo` on is well formed.
pub open spec fn nodes_wf_from<'a>(nodes: Seq<SetNodeView<'a>>, lo: int) -> bool {
    forall|t: int| lo <= t < nodes.len() ==> selections_wf(#[trigger] nodes[t].selections@)
}

/// Appends the nodes of `sels` to `nodes` and returns the number of its node.
pub fn add_set_nodes<'a>(sels: &'a Vec<Selection>, span: Span, nodes: &mut Vec<SetNode<'a>>) -> (idx: usize)
    ensures
        idx == old(nodes)@.len(),
        nodes_view(final(nodes)@) == nodes_view(old(nodes)@) + set_nodes(sels, span, old(nodes)@.len()),
        nodes_ok_from(nodes_view(final(nodes)@), old(nodes)@.len() as int),
        selections_wf(sels@) ==> nodes_wf_from(nodes_view(final(nodes)@), old(nodes)@.len() as int),
    decreases sels@,
{
    let ghost start = nodes_view(nodes@);
    let idx = nodes.len();
    nodes.push(SetNode { selections: sels, children: Vec::new(), span });
    let ghost placeholder = SetNodeView { selections: sels, children: Seq::<Option<usize>>::empty(), span };
    proof { assert(nodes_view(nodes@) =~= start.push(placeholder)); }
    let mut children: Vec<Option<usize>> = Vec::new();
    let mut i: usize = 0;
    while i < sels.len()
        invariant
            i <= sels.len(),
            idx == start.len(),
            nodes_view(nodes@) == start.push(placeholder) + subtree_nodes(sels, i as nat, (idx + 1) as nat),
            children@ == child_nodes(sels, i as nat, (idx + 1) as nat),
            children@.len() == i,
            nodes_ok_from(nodes_view(nodes@), idx + 1),
            selections_wf(sels@) ==> nodes_wf_from(nodes_view(nodes@), idx + 1),
            forall|j: int|
                0 <= j < children@.len() ==> (#[trigger] children@[j] matches Some(c) ==> idx < c
                    < nodes@.len()),
        decreases sels.len() - i,
    {
        let ghost before = nodes_view(nodes@);
        let ghost prev = subtree_nodes(sels, i as nat, (idx + 1) as nat);
        let sel: &'a Selection = &sels[i];
        let child: Option<(&'a Vec<Selection>, Span)> = match sel {
            Selection::Field(f) => Some((&f.selection_set, f.selection_set_span)),
            Selection::InlineFragment(fr) => Some((&fr.selection_set, fr.selection_set_span)),
            Selection::FragmentSpread(_) => None,
        };
        match child {
            Some((c, cspan)) => {
                proof {
                    assert(decreases_to!(sels@ => sels@[i as int]));
                    match sels@[i as int] {
                        Selection::Field(f) => {
                            assert(decreases_to!(sels@[i as int] => f));
                            assert(decreases_to!(f.selection_set => f.selection_set@));
                        },
                        Selection::InlineFragment(fr) => {
                            assert(decreases_to!(sels@[i as int] => fr));
                            assert(decreases_to!(fr.selection_set => fr.selection_set@));
                        },
                        _ => {},
                    }
                }
                let here = nodes.len();
                proof {
                    if selections_wf(sels@) {
                        assert(selection_wf(sels@[i as int]));
                        assert(selections_wf(c@));
                    }
                }
                let c_idx = add_set_nodes(c, cspan, nodes);
                children.push(Some(c_idx));
                proof {
                    if selections_wf(sels@) {
                        assert forall|t: int| idx + 1 <= t < nodes_view(nodes@).len() implies selections_wf(
                            #[trigger] nodes_view(nodes@)[t].selections@,
                        ) by {
                            if t < before.len() {
                                assert(nodes_view(nodes@)[t] == before[t]);
                            }
                        }
                    }
                    assert(nodes_view(nodes@).len() == before.len() + set_nodes(c, cspan, before.len()).len());
                    assert forall|t: int| idx + 1 <= t < nodes_view(nodes@).len() implies #[trigger] node_ok(
                        nodes_view(nodes@),
                        t,
                    ) by {
                        if t < before.len() {
                            assert(nodes_view(nodes@)[t] == before[t]);
                            assert(node_ok(before, t));
                        }
                    }
                }
            },
            None => {
                children.push(None);
            },
        }
        proof {
            assert(subtree_nodes(sels, (i + 1) as nat, (idx + 1) as nat) == prev + match child_selections(
                &sels@[i as int],
            ) {
                Some(c) => set_nodes(c, child_span(&sels@[i as int]), ((idx + 1) + prev.len()) as nat),
                None => Seq::empty(),
            });
            assert(nodes_view(nodes@) =~= start.push(placeholder) + subtree_nodes(
                sels,
                (i + 1) as nat,
                (idx + 1) as nat,
            ));
            assert(children@ =~= child_nodes(sels, (i + 1) as nat, (idx + 1) as nat));
        }
        i += 1;
    }
    let ghost filled = nodes_view(nodes@);
    nodes.set(idx, SetNode { selections: sels, children, span });
    proof {
        assert(nodes_view(nodes@) =~= filled.update(idx as int, nodes@[idx as int]@));
        assert(nodes_view(nodes@) =~= start + set_nodes(sels, span, start.len()));
        assert forall|t: int| idx <= t < nodes_view(nodes@).len() implies #[trigger] node_ok(
            nodes_view(nodes@),
            t,
        ) by {
            if t > idx {
                assert(nodes_view(nodes@)[t] == filled[t]);
                assert(node_ok(filled, t));
            } else {
                assert(nodes_view(nodes@)[t].children == children@);
            }
        }
        if selections_wf(sels@) {
            assert forall|t: int| idx <= t < nodes_view(nodes@).len() implies selections_wf(
                #[trigger] nodes_view(nodes@)[t].selections@,
            ) by {
                if t > idx {
                    assert(nodes_view(nodes@)[t] == filled[t]);
                }
            }
        }
    }
    idx
}

/// The nodes of the selection sets of the first `k` operations, numbered from `base`.
pub open spec fn operations_nodes<'a>(ops: &'a Vec<OperationDefinition>, k: nat, base: nat) -> Seq<
    SetNodeView<'a>,
>
    decreases k,
{
    if k == 0 || k > ops@.len() {
        Seq::empty()
    } else {
        let prev = operations_nodes(ops, (k - 1) as nat, base);
        prev + set_nodes(&ops@[k - 1].selection_set, ops@[k - 1].selection_set_span, base + prev.len())
    }
}

/// The node numbers of the selection sets of the first `k` operations.
pub open spec fn operations_roots<'a>(ops: &'a Vec<OperationDefinition>, k: nat, base: nat) -> Seq<usize>
    decreases k,
{
    if k == 0 || k > ops@.len() {
        Seq::empty()
    } else {
        operations_roots(ops, (k - 1) as nat, base).push(
            (base + operations_nodes(ops, (k - 1) as nat, base).len()) as usize,
        )
    }
}

pub open spec fn fragments_nodes<'a>(frags: &'a Vec<FragmentDefinition>, k: nat, base: nat) -> Seq<
    SetNodeView<'a>,
>
    decreases k,
{
    if k == 0 || k > frags@.len() {
        Seq::empty()
    } else {
        let prev = fragments_nodes(frags, (k - 1) as nat, base);
        prev + set_nodes(&frags@[k - 1].selection_set, frags@[k - 1].selection_set_span, base + prev.len())
    }
}

pub open spec fn fragments_roots<'a>(frags: &'a Vec<FragmentDefinition>, k: nat, base: nat) -> Seq<usize>
    decreases k,
{
    if k == 0 || k > frags@.len() {
        Seq::empty()
    } else {
        fragments_roots(frags, (k - 1) as nat, base).push(
            (base + fragments_nodes(frags, (k - 1) as nat, base).len()) as usize,
        )
    }
}

/// All the selection sets of a document, numbered.
pub struct SelectionSets<'a> {
    pub nodes: Vec<SetNode<'a>>,
    /// The node of each operation's selection set.
    pub operation_nodes: Vec<usize>,
    /// The node of each fragment definition's selection set.
    pub fragment_nodes: Vec<usize>,
}

pub open spec fn document_nodes<'a>(document: &'a ExecutableDocument) -> Seq<SetNodeView<'a>> {
    let ops = &document.operation_definitions;
    let op_nodes = operations_nodes(ops, ops@.len(), 0);
    op_nodes + fragments_nodes(
        &document.fragment_definitions,
        document.fragment_definitions@.len(),
        op_nodes.len(),
    )
}

pub open spec fn document_operation_nodes<'a>(document: &'a ExecutableDocument) -> Seq<usize> {
    let ops = &document.operation_definitions;
    operations_roots(ops, ops@.len(), 0)
}

pub open spec fn document_fragment_nodes<'a>(document: &'a ExecutableDocument) -> Seq<usize> {
    let ops = &document.operation_definitions;
    fragments_roots(
        &document.fragment_definitions,
        document.fragment_definitions@.len(),
        operations_nodes(ops, ops@.len(), 0).len(),
    )
}

impl<'a> SelectionSets<'a> {
    /// The nodes are well formed: each node's children come after it, and the
    /// operations and fragments have one node each.
    pub open spec fn wf(&self, document: &'a ExecutableDocument) -> bool {
        &&& nodes_ok_from(nodes_view(self.nodes@), 0)
        &&& self.operation_nodes@.len() == document.operation_definitions@.len()
        &&& self.fragment_nodes@.len() == document.fragment_definitions@.len()
        &&& forall|i: int|
            0 <= i < self.operation_nodes@.len() ==> #[trigger] self.operation_nodes@[i]
                < self.nodes@.len()
        &&& forall|i: int|
            0 <= i < self.fragment_nodes@.len() ==> #[trigger] self.fragment_nodes@[i]
                < self.nodes@.len()
    }

    /// Numbers the selection sets of a document.
    pub fn new(document: &'a ExecutableDocument) -> (r: SelectionSets<'a>)
        ensures
            nodes_view(r.nodes@) == document_nodes(document),
            r.operation_nodes@ == document_operation_nodes(document),
            r.fragment_nodes@ == document_fragment_nodes(document),
            r.wf(document),
            document.wf() ==> nodes_wf_from(nodes_view(r.nodes@), 0),
    {
        let ops = &document.operation_definitions;
        let frags = &document.fragment_definitions;
        let mut nodes: Vec<SetNode<'a>> = Vec::new();
        let mut operation_nodes: Vec<usize> = Vec::new();
        let mut i: usize = 0;
        while i < ops.len()
            invariant
                i <= ops.len(),
                *ops == document.operation_definitions,
                nodes_view(nodes@) == operations_nodes(ops, i as nat, 0),
                operation_nodes@ == operations_roots(ops, i as nat, 0),
                operation_nodes@.len() == i,
                nodes_ok_from(nodes_view(nodes@), 0),
                document.wf() ==> nodes_wf_from(nodes_view(nodes@), 0),
                forall|j: int| 0 <= j < i ==> #[trigger] operation_nodes@[j] < nodes@.len(),
            decreases ops.len() - i,
        {
            let ghost before = nodes_view(nodes@);
            proof {
                if document.wf() {
                    assert(crate::document::operation_wf(ops@[i as int]));
                }
            }
            let root = add_set_nodes(&ops[i].selection_set, ops[i].selection_set_span, &mut nodes);
            operation_nodes.push(root);
            proof {
                assert(nodes@.len() == nodes_view(nodes@).len());
                assert(before.len() == root);
                assert(nodes_view(nodes@).len() > root) by {
                    assert(set_nodes(&ops@[i as int].selection_set, ops@[i as int].selection_set_span, before.len()).len() > 0);
                }
                assert forall|t: int| 0 <= t < nodes_view(nodes@).len() implies #[trigger] node_ok(
                    nodes_view(nodes@),
                    t,
                ) by {
                    if t < before.len() {
                        assert(nodes_view(nodes@)[t] == before[t]);
                        assert(node_ok(before, t));
                    }
                }
                if document.wf() {
                    assert forall|t: int| 0 <= t < nodes_view(nodes@).len() implies selections_wf(
                        #[trigger] nodes_view(nodes@)[t].selections@,
                    ) by {
                        if t < before.len() {
                            assert(nodes_view(nodes@)[t] == before[t]);
                        }
                    }
                }
            }
            i += 1;
        }
        let ghost op_nodes = nodes_view(nodes@);
        let mut fragment_nodes: Vec<usize> = Vec::new();
        let mut k: usize = 0;
        while k < frags.len()
            invariant
                k <= frags.len(),
                *frags == document.fragment_definitions,
                *ops == document.operation_definitions,
                op_nodes == operations_nodes(ops, ops@.len(), 0),
                nodes_view(nodes@) == op_nodes + fragments_nodes(frags, k as nat, op_nodes.len()),
                fragment_nodes@ == fragments_roots(frags, k as nat, op_nodes.len()),
                fragment_nodes@.len() == k,
                nodes_ok_from(nodes_view(nodes@), 0),
                document.wf() ==> nodes_wf_from(nodes_view(nodes@), 0),
                operation_nodes@.len() == ops@.len(),
                forall|j: int| 0 <= j < operation_nodes@.len() ==> #[trigger] operation_nodes@[j] < nodes@.len(),
                forall|j: int| 0 <= j < k ==> #[trigger] fragment_nodes@[j] < nodes@.len(),
            decreases frags.len() - k,
        {
            let ghost before = nodes_view(nodes@);
            proof {
                if document.wf() {
                    assert(crate::document::fragment_wf(frags@[k as int]));
                }
            }
            let root = add_set_nodes(&frags[k].selection_set, frags[k].selection_set_span, &mut nodes);
            fragment_nodes.push(root);
            proof {
                assert(nodes@.len() == nodes_view(nodes@).len());
                assert(before.len() == root);
                assert(nodes_view(nodes@).len() > root) by {
                    assert(set_nodes(&frags@[k as int].selection_set, frags@[k as int].selection_set_span, before.len()).len() > 0);
                }
                assert(nodes_view(nodes@) =~= op_nodes + fragments_nodes(frags, (k + 1) as nat, op_nodes.len()));
                assert forall|t: int| 0 <= t < nodes_view(nodes@).len() implies #[trigger] node_ok(
                    nodes_view(nodes@),
                    t,
                ) by {
                    if t < before.len() {
                        assert(nodes_view(nodes@)[t] == before[t]);
                        assert(node_ok(before, t));
                    }
                }
                if document.wf() {
                    assert forall|t: int| 0 <= t < nodes_view(nodes@).len() implies selections_wf(
                        #[trigger] nodes_view(nodes@)[t].selections@,
                    ) by {
                        if t < before.len() {
                            assert(nodes_view(nodes@)[t] == before[t]);
                        }
                    }
                }
            }
            k += 1;
        }
        SelectionSets { nodes, operation_nodes, fragment_nodes }
    }
}

/// The type that the selection set of `sel` is scoped to, when `sel` stands in a set
/// scoped to `ty`: the type of a defined field that has a selection set, or the
/// type condition of an inline fragment (the enclosing type where it has none).
pub open spec fn scoped_child_type(schema: SchemaDefinition, sel: Selection, ty: int) -> Option<int> {
    match sel {
        Selection::Field(f) => match spec_fields_of(schema.types@[ty].kind) {
            Some(fds) => match field_index(fds, f.name@) {
                Some(k) => if f.selection_set@.len() > 0 {
                    schema.type_index(spec_base_name(fds[k].type_ref))
                } else {
                    None
                },
                None => None,
            },
            None => None,
        },
        Selection::InlineFragment(i) => match i.type_condition {
            Some(tc) => schema.type_index(tc@),
            None => Some(ty),
        },
        Selection::FragmentSpread(_) => None,
    }
}

/// The selection sets reached from node `n` scoped to `ty`, each with its type: the
/// set itself, then those of its selections in order, each before the sets within
/// it. Fragment spreads are not followed.
pub open spec fn set_visits<'a>(schema: SchemaDefinition, nodes: Seq<SetNodeView<'a>>, n: int, ty: int) -> Seq<
    (int, int),
>
    decreases nodes.len() - n, 1nat, 0nat,
{
    if 0 <= n < nodes.len() {
        seq![(n, ty)] + selection_visits(schema, nodes, n, ty, nodes[n].selections@.len())
    } else {
        Seq::empty()
    }
}

pub open spec fn selection_visits<'a>(
    schema: SchemaDefinition,
    nodes: Seq<SetNodeView<'a>>,
    n: int,
    ty: int,
    k: nat,
) -> Seq<(int, int)>
    decreases nodes.len() - n, 0nat, k,
{
    if k == 0 || !(0 <= n < nodes.len()) || k > nodes[n].selections@.len() || k > nodes[n].children.len() {
        Seq::empty()
    } else {
        selection_visits(schema, nodes, n, ty, (k - 1) as nat) + match scoped_child_type(
            schema,
            nodes[n].selections@[k - 1],
            ty,
        ) {
            Some(t) => match nodes[n].children[k - 1] {
                Some(c) => if n < c < nodes.len() {
                    set_visits(schema, nodes, c as int, t)
                } else {
                    Seq::empty()
                },
                None => Seq::empty(),
            },
            None => Seq::empty(),
        }
    }
}

/// The type at the root of an operation of the given kind, when the schema defines it.
pub open spec fn root_type(schema: SchemaDefinition, operation_type: OperationType) -> Option<int> {
    match operation_type {
        OperationType::Query => schema.type_index(schema.query@),
        OperationType::Mutation => match schema.mutation {
            Some(m) => schema.type_index(m@),
            None => None,
        },
        OperationType::Subscription => match schema.subscription {
            Some(m) => schema.type_index(m@),
            None => None,
        },
    }
}

pub open spec fn operations_visits<'a>(
    schema: SchemaDefinition,
    document: &'a ExecutableDocument,
    nodes: Seq<SetNodeView<'a>>,
    roots: Seq<usize>,
    k: nat,
) -> Seq<(int, int)>
    decreases k,
{
    if k == 0 || k > document.operation_definitions@.len() || k > roots.len() {
        Seq::empty()
    } else {
        operations_visits(schema, document, nodes, roots, (k - 1) as nat) + match root_type(
            schema,
            document.operation_definitions@[k - 1].operation_type,
        ) {
            Some(t) => set_visits(schema, nodes, roots[k - 1] as int, t),
            None => Seq::empty(),
        }
    }
}

pub open spec fn fragments_visits<'a>(
    schema: SchemaDefinition,
    document: &'a ExecutableDocument,
    nodes: Seq<SetNodeView<'a>>,
    roots: Seq<usize>,
    k: nat,
) -> Seq<(int, int)>
    decreases k,
{
    if k == 0 || k > document.fragment_definitions@.len() || k > roots.len() {
        Seq::empty()
    } else {
        fragments_visits(schema, document, nodes, roots, (k - 1) as nat) + match schema.type_index(
            document.fragment_definitions@[k - 1].type_condition@,
        ) {
            Some(t) => set_visits(schema, nodes, roots[k - 1] as int, t),
            None => Seq::empty(),
        }
    }
}

/// Every selection set whose type is known, with that type: those of the operations
/// scoped to their root types, then those of the fragment definitions scoped to
/// their type conditions.
pub open spec fn document_visits<'a>(schema: SchemaDefinition, document: &'a ExecutableDocument) -> Seq<
    (int, int),
> {
    let nodes = document_nodes(document);
    operations_visits(
        schema,
        document,
        nodes,
        document_operation_nodes(document),
        document.operation_definitions@.len(),
    ) + fragments_visits(
        schema,
        document,
        nodes,
        document_fragment_nodes(document),
        document.fragment_definitions@.len(),
    )
}

pub open spec fn visits_view(v: Seq<(usize, usize)>) -> Seq<(int, int)> {
    v.map_values(|p: (usize, usize)| (p.0 as int, p.1 as int))
}

/// The type index is that of a type of the schema.
pub open spec fn valid_type(schema: SchemaDefinition, t: int) -> bool {
    0 <= t < schema.types@.len()
}

pub open spec fn visits_valid<'a>(schema: SchemaDefinition, nodes: Seq<SetNodeView<'a>>, v: Seq<(usize, usize)>) -> bool {
    forall|i: int| 0 <= i < v.len() ==> (#[trigger] v[i]).0 < nodes.len() && valid_type(schema, v[i].1 as int)
}

proof fn lemma_visits_push(v: Seq<(usize, usize)>, p: (usize, usize))
    ensures
        visits_view(v.push(p)) == visits_view(v).push((p.0 as int, p.1 as int)),
{
    assert(visits_view(v.push(p)) =~= visits_view(v).push((p.0 as int, p.1 as int)));
}

impl<'a> SelectionSets<'a> {
    fn visit_set(
        &self,
        schema: &SchemaDefinition,
        document: &'a ExecutableDocument,
        n: usize,
        ty: usize,
        out: &mut Vec<(usize, usize)>,
    )
        requires
            self.wf(document),
            n < self.nodes@.len(),
            valid_type(*schema, ty as int),
            visits_valid(*schema, nodes_view(self.nodes@), old(out)@),
        ensures
            visits_view(final(out)@) == visits_view(old(out)@) + set_visits(
                *schema,
                nodes_view(self.nodes@),
                n as int,
                ty as int,
            ),
            visits_valid(*schema, nodes_view(self.nodes@), final(out)@),
        decreases self.nodes@.len() - n,
    {
        let ghost nodes = nodes_view(self.nodes@);
        let ghost start = out@;
        proof { lemma_visits_push(out@, (n, ty)); }
        out.push((n, ty));
        let node = &self.nodes[n];
        proof { assert(node_ok(nodes, n as int)); }
        let mut k: usize = 0;
        while k < node.selections.len()
            invariant
                k <= node.selections@.len(),
                *node == self.nodes@[n as int],
                nodes == nodes_view(self.nodes@),
                node_ok(nodes, n as int),
                n < nodes.len(),
                self.wf(document),
                valid_type(*schema, ty as int),
                visits_valid(*schema, nodes, out@),
                visits_view(out@) == visits_view(start) + seq![(n as int, ty as int)] + selection_visits(
                    *schema,
                    nodes,
                    n as int,
                    ty as int,
                    k as nat,
                ),
            decreases node.selections@.len() - k,
        {
            let ghost before = visits_view(out@);
            let scoped: Option<usize> = match &node.selections[k] {
                Selection::Field(f) => match schema.types[ty].fields() {
                    Some(fds) => match find_field(fds, &f.name) {
                        Some(fi) => if f.selection_set.len() > 0 {
                            schema.get_type_definition(fds[fi].type_ref.base_name())
                        } else {
                            None
                        },
                        None => None,
                    },
                    None => None,
                },
                Selection::InlineFragment(i) => match &i.type_condition {
                    Some(tc) => schema.get_type_definition(tc),
                    None => Some(ty),
                },
                Selection::FragmentSpread(_) => None,
            };
            proof {
                assert(nodes[n as int].selections@[k as int] == node.selections@[k as int]);
                assert(scoped matches Some(t) ==> scoped_child_type(*schema, node.selections@[k as int], ty as int) == Some(t as int) && valid_type(*schema, t as int));
                assert(scoped is None ==> scoped_child_type(*schema, node.selections@[k as int], ty as int) is None);
            }
            match scoped {
                Some(t) => match node.children[k] {
                    Some(c) => {
                        proof { assert(n < c < nodes.len()) by { assert(nodes[n as int].children[k as int] == Some(c)); } }
                        self.visit_set(schema, document, c, t, out);
                    },
                    None => {},
                },
                None => {},
            }
            k += 1;
            proof {
                assert(visits_view(out@) =~= visits_view(start) + seq![(n as int, ty as int)] + selection_visits(
                    *schema,
                    nodes,
                    n as int,
                    ty as int,
                    k as nat,
                ));
            }
        }
        proof {
            assert(visits_view(out@) =~= visits_view(start) + set_visits(*schema, nodes, n as int, ty as int));
        }
    }

    /// Every selection set of the document whose type is known, with its type.
    pub fn visits(&self, schema: &SchemaDefinition, document: &'a ExecutableDocument) -> (r: Vec<(usize, usize)>)
        requires
            self.wf(document),
            nodes_view(self.nodes@) == document_nodes(document),
            self.operation_nodes@ == document_operation_nodes(document),
            self.fragment_nodes@ == document_fragment_nodes(document),
        ensures
            visits_view(r@) == document_visits(*schema, document),
            visits_valid(*schema, nodes_view(self.nodes@), r@),
    {
        let ghost nodes = nodes_view(self.nodes@);
        let ops = &document.operation_definitions;
        let mut out: Vec<(usize, usize)> = Vec::new();
        let mut i: usize = 0;
        proof { assert(visits_view(out@) =~= Seq::<(int, int)>::empty()); }
        while i < ops.len()
            invariant
                i <= ops.len(),
                *ops == document.operation_definitions,
                self.wf(document),
                nodes == nodes_view(self.nodes@),
                visits_valid(*schema, nodes, out@),
                visits_view(out@) == operations_visits(*schema, document, nodes, self.operation_nodes@, i as nat),
            decreases ops.len() - i,
        {
            let root_name: Option<&String> = match ops[i].operation_type {
                OperationType::Query => Some(&schema.query),
                OperationType::Mutation => match &schema.mutation {
                    Some(m) => Some(m),
                    None => None,
                },
                OperationType::Subscription => match &schema.subscription {
                    Some(m) => Some(m),
                    None => None,
                },
            };
            let t = match root_name {
                Some(rn) => schema.get_type_definition(rn),
                None => None,
            };
            proof {
                assert(t matches Some(x) ==> root_type(*schema, ops@[i as int].operation_type) == Some(x as int));
                assert(t is None ==> root_type(*schema, ops@[i as int].operation_type) is None);
                assert(self.operation_nodes@[i as int] < self.nodes@.len());
            }
            match t {
                Some(t) => self.visit_set(schema, document, self.operation_nodes[i], t, &mut out),
                None => {},
            }
            i += 1;
        }
        let ghost op_visits = visits_view(out@);
        let frags = &document.fragment_definitions;
        let mut k: usize = 0;
        while k < frags.len()
            invariant
                k <= frags.len(),
                *frags == document.fragment_definitions,
                self.wf(document),
                nodes == nodes_view(self.nodes@),
                visits_valid(*schema, nodes, out@),
                visits_view(out@) == op_visits + fragments_visits(*schema, document, nodes, self.fragment_nodes@, k as nat),
            decreases frags.len() - k,
        {
            let t = schema.get_type_definition(&frags[k].type_condition);
            proof { assert(self.fragment_nodes@[k as int] < self.nodes@.len()); }
            match t {
                Some(t) => self.visit_set(schema, document, self.fragment_nodes[k], t, &mut out),
                None => {},
            }
            k += 1;
            proof {
                assert(visits_view(out@) =~= op_visits + fragments_visits(*schema, document, nodes, self.fragment_nodes@, k as nat));
            }
        }
        out
    }
}

} // verus!
