//! The fields that a selection set gathers under each response name, and the
//! measure that bounds how deep their comparison goes.
use vstd::prelude::*;
use crate::document::{ExecutableDocument, Field, FragmentDefinition};
use crate::executable::document::error::ErrorView;
use crate::executable::document::selection_sets::SetNodeView;
use crate::schema::{FieldDefinition, SchemaDefinition};
use crate::value::arguments_wf;

verus! {

/// A field found while gathering the fields of a selection set: the type whose set
/// it stands in, the fragments spread on the way to it, and the node of its own
/// selection set.
pub struct FieldContext<'a> {
    pub field: &'a Field,
    pub field_definition: &'a FieldDefinition,
    pub parent_type: usize,
    pub parent_fragments: Vec<&'a String>,
    pub node: usize,
}

pub struct FieldContextView<'a> {
    pub field: &'a Field,
    pub field_definition: &'a FieldDefinition,
    pub parent_type: usize,
    pub parent_fragments: Seq<Seq<char>>,
    pub node: usize,
}

pub open spec fn names_view(v: Seq<&String>) -> Seq<Seq<char>> {
    v.map_values(|s: &String| s@)
}

impl<'a> View for FieldContext<'a> {
    type V = FieldContextView<'a>;

    open spec fn view(&self) -> FieldContextView<'a> {
        FieldContextView {
            field: self.field,
            field_definition: self.field_definition,
            parent_type: self.parent_type,
            parent_fragments: names_view(self.parent_fragments@),
            node: self.node,
        }
    }
}

pub open spec fn contexts_view<'a>(cs: Seq<FieldContext<'a>>) -> Seq<FieldContextView<'a>> {
    cs.map_values(|c: FieldContext<'a>| c@)
}

pub fn copy_names<'a>(v: &Vec<&'a String>) -> (r: Vec<&'a String>)
    ensures
        r@ == v@,
{
    let mut r: Vec<&'a String> = Vec::new();
    let mut i: usize = 0;
    while i < v.len()
        invariant
            i <= v.len(),
            r@ == v@.take(i as int),
        decreases v.len() - i,
    {
        r.push(v[i]);
        i += 1;
        proof { assert(r@ =~= v@.take(i as int)); }
    }
    proof { assert(v@.take(i as int) =~= v@); }
    r
}

impl<'a> FieldContext<'a> {
    pub fn copy(&self) -> (r: FieldContext<'a>)
        ensures
            r@ == self@,
    {
        FieldContext {
            field: self.field,
            field_definition: self.field_definition,
            parent_type: self.parent_type,
            parent_fragments: copy_names(&self.parent_fragments),
            node: self.node,
        }
    }
}

/// Fields grouped by response name, each group in the order found, the groups in the
/// order their names were first found.
pub struct FieldGroup<'a> {
    pub name: &'a String,
    pub contexts: Vec<FieldContext<'a>>,
}

pub struct FieldGroupView<'a> {
    pub name: Seq<char>,
    pub contexts: Seq<FieldContextView<'a>>,
}

impl<'a> View for FieldGroup<'a> {
    type V = FieldGroupView<'a>;

    open spec fn view(&self) -> FieldGroupView<'a> {
        FieldGroupView { name: self.name@, contexts: contexts_view(self.contexts@) }
    }
}

pub open spec fn groups_view<'a>(gs: Seq<FieldGroup<'a>>) -> Seq<FieldGroupView<'a>> {
    gs.map_values(|g: FieldGroup<'a>| g@)
}

/// The index of the group with the given name.
pub open spec fn group_index<'a>(gs: Seq<FieldGroupView<'a>>, name: Seq<char>) -> Option<int>
    decreases gs.len(),
{
    if gs.len() == 0 {
        None
    } else if gs.last().name == name {
        Some(gs.len() - 1)
    } else {
        group_index(gs.drop_last(), name)
    }
}

/// The groups with `c` added to the group of `name`, or to a new group at the end.
pub open spec fn group_insert<'a>(gs: Seq<FieldGroupView<'a>>, name: Seq<char>, c: FieldContextView<'a>) -> Seq<
    FieldGroupView<'a>,
> {
    match group_index(gs, name) {
        Some(i) => gs.update(i, FieldGroupView { name, contexts: gs[i].contexts.push(c) }),
        None => gs.push(FieldGroupView { name, contexts: seq![c] }),
    }
}

pub proof fn lemma_group_index<'a>(gs: Seq<FieldGroupView<'a>>, name: Seq<char>)
    ensures
        group_index(gs, name) matches Some(i) ==> 0 <= i < gs.len() && gs[i].name == name,
        group_index(gs, name) is None ==> forall|j: int| 0 <= j < gs.len() ==> #[trigger] gs[j].name != name,
    decreases gs.len(),
{
    if gs.len() > 0 && gs.last().name != name {
        lemma_group_index(gs.drop_last(), name);
        assert forall|j: int| 0 <= j < gs.len() - 1 implies gs[j] == gs.drop_last()[j] by {}
    }
}

pub proof fn lemma_group_index_is<'a>(gs: Seq<FieldGroupView<'a>>, name: Seq<char>, i: int)
    requires
        0 <= i < gs.len(),
        gs[i].name == name,
        forall|j: int| i < j < gs.len() ==> #[trigger] gs[j].name != name,
    ensures
        group_index(gs, name) == Some(i),
    decreases gs.len(),
{
    if i < gs.len() - 1 {
        lemma_group_index_is(gs.drop_last(), name, i);
    }
}

/// Adds `c` to the group of `name`.
pub fn add_to_group<'a>(gs: &mut Vec<FieldGroup<'a>>, name: &'a String, c: FieldContext<'a>)
    ensures
        groups_view(final(gs)@) == group_insert(groups_view(old(gs)@), name@, c@),
{
    let ghost view = groups_view(gs@);
    let mut i: usize = gs.len();
    while i > 0
        invariant
            i <= gs.len(),
            view == groups_view(gs@),
            view == groups_view(old(gs)@),
            forall|j: int| i <= j < gs@.len() ==> #[trigger] view[j].name != name@,
        decreases i,
    {
        if *gs[i - 1].name == *name {
            proof {
                assert(view[i - 1].name == name@);
                lemma_group_index_is(view, name@, i - 1);
            }
            let mut group = gs.remove(i - 1);
            let ghost before = group@;
            group.contexts.push(c);
            proof {
                assert(contexts_view(group.contexts@) =~= before.contexts.push(c@));
            }
            gs.insert(i - 1, group);
            proof {
                assert(groups_view(gs@) =~= group_insert(view, name@, c@));
            }
            return;
        }
        i -= 1;
    }
    proof {
        lemma_group_index(view, name@);
        if group_index(view, name@) is Some {
            let k = group_index(view, name@)->0;
            assert(view[k].name == name@);
        }
    }
    let mut contexts: Vec<FieldContext<'a>> = Vec::new();
    contexts.push(c);
    gs.push(FieldGroup { name, contexts });
    proof {
        assert(contexts_view(contexts@) =~= seq![c@]);
        assert(groups_view(gs@) =~= group_insert(view, name@, c@));
    }
}

/// The number of fragment definitions whose names are not among `spread`.
pub open spec fn missing_count(frags: Seq<FragmentDefinition>, spread: Seq<Seq<char>>) -> nat
    decreases frags.len(),
{
    if frags.len() == 0 {
        0
    } else {
        missing_count(frags.drop_last(), spread) + if spread.contains(frags.last().name@) {
            0nat
        } else {
            1nat
        }
    }
}

pub proof fn lemma_missing_count_bound(frags: Seq<FragmentDefinition>, spread: Seq<Seq<char>>)
    ensures
        missing_count(frags, spread) <= frags.len(),
    decreases frags.len(),
{
    if frags.len() > 0 {
        lemma_missing_count_bound(frags.drop_last(), spread);
    }
}

/// Spreading one more fragment that some definition is named after leaves fewer missing.
pub proof fn lemma_missing_count_push(frags: Seq<FragmentDefinition>, spread: Seq<Seq<char>>, name: Seq<char>, j: int)
    requires
        !spread.contains(name),
        0 <= j < frags.len(),
        frags[j].name@ == name,
    ensures
        missing_count(frags, spread.push(name)) < missing_count(frags, spread),
    decreases frags.len(),
{
    lemma_missing_count_le(frags.drop_last(), spread, name);
    if j < frags.len() - 1 {
        lemma_missing_count_push(frags.drop_last(), spread, name, j);
    }
    let x = frags.last().name@;
    if spread.push(name).contains(x) && !spread.contains(x) {
        assert(x == name) by {
            let k = choose|k: int| 0 <= k < spread.push(name).len() && spread.push(name)[k] == x;
            if k < spread.len() {
                assert(spread[k] == x);
            }
        }
    }
    if spread.contains(x) {
        let k = choose|k: int| 0 <= k < spread.len() && spread[k] == x;
        assert(spread.push(name)[k] == x);
    }
    if j == frags.len() - 1 {
        assert(spread.push(name)[spread.len() as int] == name);
    }
}

pub proof fn lemma_missing_count_le(frags: Seq<FragmentDefinition>, spread: Seq<Seq<char>>, name: Seq<char>)
    ensures
        missing_count(frags, spread.push(name)) <= missing_count(frags, spread),
    decreases frags.len(),
{
    if frags.len() > 0 {
        lemma_missing_count_le(frags.drop_last(), spread, name);
        let x = frags.last().name@;
        if spread.contains(x) {
            let k = choose|k: int| 0 <= k < spread.len() && spread[k] == x;
            assert(spread.push(name)[k] == x);
        }
    }
}

/// The number of nodes not yet in the cache.
pub open spec fn none_count<'a>(c: Seq<Option<Seq<ErrorView<'a>>>>) -> nat
    decreases c.len(),
{
    if c.len() == 0 {
        0
    } else {
        none_count(c.drop_last()) + if c.last() is None {
            1nat
        } else {
            0nat
        }
    }
}

/// Filling an empty entry of the cache leaves one fewer; replacing a filled one
/// changes nothing.
pub proof fn lemma_none_count_update<'a>(c: Seq<Option<Seq<ErrorView<'a>>>>, n: int, e: Seq<ErrorView<'a>>)
    requires
        0 <= n < c.len(),
    ensures
        c[n] is None ==> none_count(c.update(n, Some(e))) + 1 == none_count(c),
        c[n] is Some ==> none_count(c.update(n, Some(e))) == none_count(c),
    decreases c.len(),
{
    let u = c.update(n, Some(e));
    if n < c.len() - 1 {
        lemma_none_count_update(c.drop_last(), n, e);
        assert(u.drop_last() =~= c.drop_last().update(n, Some(e)));
    } else {
        assert(u.drop_last() =~= c.drop_last());
    }
}

/// The document, schema and numbered selection sets the rule works on.
pub struct MergeScope<'a> {
    pub schema: &'a SchemaDefinition,
    pub document: &'a ExecutableDocument,
    pub nodes: Seq<SetNodeView<'a>>,
    pub fragment_nodes: Seq<usize>,
}

impl<'a> MergeScope<'a> {
    pub open spec fn missing(self, spread: Seq<Seq<char>>) -> nat {
        missing_count(self.document.fragment_definitions@, spread)
    }

    /// How far the fields gathered from node `n`, with the fragments `spread` spread,
    /// can still go: fewer fragments left to spread, or a later node.
    pub open spec fn measure(self, spread: Seq<Seq<char>>, n: int) -> nat {
        self.missing(spread) * (self.nodes.len() + 1) + if 0 <= n < self.nodes.len() {
            (self.nodes.len() - n) as nat
        } else {
            0nat
        }
    }

    pub open spec fn context_measure(self, c: FieldContextView<'a>) -> nat {
        self.measure(c.parent_fragments, c.node as int)
    }

    pub open spec fn max_measure(self, cs: Seq<FieldContextView<'a>>) -> nat
        decreases cs.len(),
    {
        if cs.len() == 0 {
            0
        } else {
            let a = self.max_measure(cs.drop_last());
            let b = self.context_measure(cs.last());
            if a >= b {
                a
            } else {
                b
            }
        }
    }

    /// A bound on every measure.
    pub open spec fn top(self) -> nat {
        (self.document.fragment_definitions@.len() + 1) * (self.nodes.len() + 1)
    }

    /// The field of every context is well formed and its node is a node.
    pub open spec fn contexts_ok(self, cs: Seq<FieldContextView<'a>>) -> bool {
        forall|i: int|
            0 <= i < cs.len() ==> (#[trigger] cs[i]).node < self.nodes.len() && arguments_wf(
                cs[i].field.arguments@,
            ) && cs[i].parent_type < self.schema.types@.len()
    }

    pub open spec fn contexts_below(self, cs: Seq<FieldContextView<'a>>, b: nat) -> bool {
        forall|i: int| 0 <= i < cs.len() ==> self.context_measure(#[trigger] cs[i]) < b
    }

    pub open spec fn contexts_at_most(self, cs: Seq<FieldContextView<'a>>, b: nat) -> bool {
        forall|i: int| 0 <= i < cs.len() ==> self.context_measure(#[trigger] cs[i]) <= b
    }

    /// Every group has fields, well formed, each measuring below `b`.
    pub open spec fn groups_ok(self, gs: Seq<FieldGroupView<'a>>, b: nat) -> bool {
        forall|i: int|
            0 <= i < gs.len() ==> (#[trigger] gs[i]).contexts.len() > 0 && self.contexts_ok(gs[i].contexts)
                && self.contexts_below(gs[i].contexts, b)
    }

    pub proof fn lemma_measure_bound(self, spread: Seq<Seq<char>>, n: int)
        ensures
            self.measure(spread, n) < self.top(),
    {
        lemma_missing_count_bound(self.document.fragment_definitions@, spread);
        let m = self.missing(spread);
        let f = self.document.fragment_definitions@.len();
        let l = self.nodes.len();
        assert(m * (l + 1) <= f * (l + 1)) by (nonlinear_arith)
            requires
                m <= f,
        ;
        assert((f + 1) * (l + 1) == f * (l + 1) + l + 1) by (nonlinear_arith);
    }

    /// A spread fragment lowers the measure, wherever its node stands.
    pub proof fn lemma_measure_spread(self, spread: Seq<Seq<char>>, name: Seq<char>, n: int, root: int)
        requires
            self.missing(spread.push(name)) < self.missing(spread),
        ensures
            self.measure(spread.push(name), root) < self.measure(spread, n),
    {
        let a = self.missing(spread.push(name));
        let b = self.missing(spread);
        let l = self.nodes.len();
        assert(a * (l + 1) + l < b * (l + 1)) by (nonlinear_arith)
            requires
                a < b,
        ;
    }

    pub proof fn lemma_max_measure_ge(self, cs: Seq<FieldContextView<'a>>, i: int)
        requires
            0 <= i < cs.len(),
        ensures
            self.context_measure(cs[i]) <= self.max_measure(cs),
        decreases cs.len(),
    {
        if i < cs.len() - 1 {
            self.lemma_max_measure_ge(cs.drop_last(), i);
        }
    }

    pub proof fn lemma_max_measure_at_most(self, cs: Seq<FieldContextView<'a>>, b: nat)
        requires
            self.contexts_at_most(cs, b),
        ensures
            self.max_measure(cs) <= b,
        decreases cs.len(),
    {
        if cs.len() > 0 {
            self.lemma_max_measure_at_most(cs.drop_last(), b);
        }
    }

    pub proof fn lemma_max_measure_below(self, cs: Seq<FieldContextView<'a>>, b: nat)
        requires
            cs.len() > 0,
            self.contexts_below(cs, b),
        ensures
            self.max_measure(cs) < b,
        decreases cs.len(),
    {
        if cs.len() > 1 {
            self.lemma_max_measure_below(cs.drop_last(), b);
        } else {
            assert(cs.drop_last().len() == 0);
            assert(self.max_measure(cs.drop_last()) == 0);
        }
        assert(self.context_measure(cs[cs.len() - 1]) < b);
    }

    pub proof fn lemma_max_measure_top(self, cs: Seq<FieldContextView<'a>>)
        ensures
            self.max_measure(cs) <= self.top(),
        decreases cs.len(),
    {
        if cs.len() > 0 {
            self.lemma_max_measure_top(cs.drop_last());
            self.lemma_measure_bound(cs.last().parent_fragments, cs.last().node as int);
        }
    }

    /// Adding a field that is fine keeps the groups fine.
    pub proof fn lemma_group_insert_ok(self, gs: Seq<FieldGroupView<'a>>, name: Seq<char>, c: FieldContextView<'a>, b: nat)
        requires
            self.groups_ok(gs, b),
            self.contexts_ok(seq![c]),
            self.context_measure(c) < b,
        ensures
            self.groups_ok(group_insert(gs, name, c), b),
    {
        lemma_group_index(gs, name);
        let r = group_insert(gs, name, c);
        match group_index(gs, name) {
            Some(i) => {
                assert forall|k: int| 0 <= k < r.len() implies (#[trigger] r[k]).contexts.len() > 0
                    && self.contexts_ok(r[k].contexts) && self.contexts_below(r[k].contexts, b) by {
                    if k == i {
                        let cs = gs[i].contexts.push(c);
                        assert(r[k].contexts == cs);
                        assert forall|j: int| 0 <= j < cs.len() implies self.context_measure(#[trigger] cs[j]) < b by {
                            if j < cs.len() - 1 {
                                assert(cs[j] == gs[i].contexts[j]);
                            }
                        }
                        assert(self.contexts_ok(cs)) by {
                            assert forall|j: int| 0 <= j < cs.len() implies (#[trigger] cs[j]).node < self.nodes.len()
                                && arguments_wf(cs[j].field.arguments@) && cs[j].parent_type < self.schema.types@.len() by {
                                if j < cs.len() - 1 {
                                    assert(cs[j] == gs[i].contexts[j]);
                                } else {
                                    assert(seq![c][0] == c);
                                }
                            }
                        }
                    }
                }
            },
            None => {
                assert forall|k: int| 0 <= k < r.len() implies (#[trigger] r[k]).contexts.len() > 0
                    && self.contexts_ok(r[k].contexts) && self.contexts_below(r[k].contexts, b) by {
                    if k == gs.len() {
                        assert(r[k].contexts == seq![c]);
                    }
                }
            },
        }
    }
}

} // verus!
