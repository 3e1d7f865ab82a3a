//! Fields that share a response name within a selection set must be mergeable: their
//! types must have the same shape, and where they stand on the same parent type they
//! must select the same field with equal arguments, down through the fields they
//! select in turn.
//!
//! Each selection set is checked once, the first time it is reached: by the visit of
//! the document's selection sets (`document_visits`), or from within the check of
//! another set, which takes the fields of a nested set, inline fragment or spread
//! fragment into account only where that set is itself valid. A set whose check is
//! under way counts as valid. The fields of a set are gathered under their response
//! names, fragments spread on the way to a field not being spread again; the names are
//! taken in the order first found, and where fields of an object type stand beside
//! those of interfaces, the object types in the order first found too. The errors of
//! each set are reported in the order of the sets' numbers.
pub mod checked_sets;
pub mod contexts;
pub mod equality;
pub mod response_names;

use vstd::prelude::*;
use crate::document::{
    ExecutableDocument, Selection, selection_wf, selections_wf, spec_response_name,
};
use crate::executable::document::error::{Error, ErrorView, errors_view};
use crate::executable::document::selection_sets::{
    SelectionSets, document_fragment_nodes, document_nodes, document_visits, node_ok,
    nodes_view, nodes_wf_from, valid_type, visits_valid, visits_view,
};
use crate::schema::{
    SchemaDefinition, TypeDefinitionKind, field_index, find_field, spec_base_name, spec_fields_of,
};
use contexts::{
    FieldContext, FieldContextView, FieldGroup, FieldGroupView, MergeScope, add_to_group,
    contexts_view, copy_names, group_insert, groups_view, lemma_missing_count_push,
    lemma_none_count_update, names_view, none_count,
};
use equality::{
    arguments_eq, arguments_equal, same_output_type_shape, same_shape,
};

verus! {

impl<'a> MergeScope<'a> {
    pub open spec fn node_len(self, n: int) -> nat {
        if 0 <= n < self.nodes.len() {
            self.nodes[n].selections@.len()
        } else {
            0
        }
    }

    /// Whether the selection set of node `n`, scoped to `ty`, is valid, with the cache
    /// of each set's errors after checking it; a set checked before answers from the
    /// cache.
    pub open spec fn set_valid(self, n: int, ty: int, c: Seq<Option<Seq<ErrorView<'a>>>>) -> (
        bool,
        Seq<Option<Seq<ErrorView<'a>>>>,
    )
        decreases none_count(c), 0nat, 0nat, 0nat,
    {
        if !(0 <= n < c.len()) {
            (true, c)
        } else {
            match c[n] {
                Some(errors) => (errors.len() == 0, c),
                None => {
                    let c1 = c.update(n, Some(Seq::empty()));
                    proof { lemma_none_count_update(c, n, Seq::empty()); }
                    let (groups, c2) = self.gather(n, self.node_len(n), ty, Seq::empty(), Seq::empty(), c1);
                    if none_count(c2) <= none_count(c1) {
                        let (errors, c3) = self.groups_can_merge(groups, groups.len(), n, c2);
                        if none_count(c3) <= none_count(c2) && n < c3.len() {
                            (errors.len() == 0, c3.update(n, Some(errors)))
                        } else {
                            (true, c3)
                        }
                    } else {
                        (true, c2)
                    }
                },
            }
        }
    }

    /// Adds the fields that the first `k` selections of node `n`, scoped to `ty`, hold
    /// to the groups `gs`: fields the type defines, and those of inline fragments and
    /// of fragments not yet spread, where their sets are valid.
    pub open spec fn gather(
        self,
        n: int,
        k: nat,
        ty: int,
        spread: Seq<Seq<char>>,
        gs: Seq<FieldGroupView<'a>>,
        c: Seq<Option<Seq<ErrorView<'a>>>>,
    ) -> (Seq<FieldGroupView<'a>>, Seq<Option<Seq<ErrorView<'a>>>>)
        decreases none_count(c), self.measure(spread, n), 0nat, k + 1,
    {
        if k == 0 || !(0 <= n < self.nodes.len()) || k > self.nodes[n].selections@.len() || k
            > self.nodes[n].children.len() {
            (gs, c)
        } else {
            let (gs1, c1) = self.gather(n, (k - 1) as nat, ty, spread, gs, c);
            if none_count(c1) > none_count(c) {
                (gs1, c1)
            } else {
                match self.nodes[n].selections@[k - 1] {
                    Selection::Field(f) => match spec_fields_of(self.schema.types@[ty].kind) {
                        Some(fds) => match field_index(fds, f.name@) {
                            Some(fi) => match self.nodes[n].children[k - 1] {
                                Some(cn) => (
                                    group_insert(
                                        gs1,
                                        spec_response_name(f),
                                        FieldContextView {
                                            field: &f,
                                            field_definition: &fds[fi],
                                            parent_type: ty as usize,
                                            parent_fragments: spread,
                                            node: cn,
                                        },
                                    ),
                                    c1,
                                ),
                                None => (gs1, c1),
                            },
                            None => (gs1, c1),
                        },
                        None => (gs1, c1),
                    },
                    Selection::FragmentSpread(s) => if spread.contains(s.name@) {
                        (gs1, c1)
                    } else {
                        match self.document.fragment_index(s.name@) {
                            Some(j) => match self.schema.type_index(
                                self.document.fragment_definitions@[j].type_condition@,
                            ) {
                                Some(st) => if 0 <= j < self.fragment_nodes.len() {
                                    let root = self.fragment_nodes[j] as int;
                                    let (valid, c2) = self.set_valid(root, ty, c1);
                                    if valid && none_count(c2) <= none_count(c1) && self.missing(
                                        spread.push(s.name@),
                                    ) < self.missing(spread) {
                                        proof { self.lemma_measure_spread(spread, s.name@, n, root); }
                                        self.gather(root, self.node_len(root), st, spread.push(s.name@), gs1, c2)
                                    } else {
                                        (gs1, c2)
                                    }
                                } else {
                                    (gs1, c1)
                                },
                                None => (gs1, c1),
                            },
                            None => (gs1, c1),
                        }
                    },
                    Selection::InlineFragment(i) => {
                        let scoped = match i.type_condition {
                            Some(tc) => self.schema.type_index(tc@),
                            None => Some(ty),
                        };
                        match scoped {
                            Some(st) => match self.nodes[n].children[k - 1] {
                                Some(cn) => {
                                    let (valid, c2) = self.set_valid(cn as int, st, c1);
                                    if valid && none_count(c2) <= none_count(c1) && n < cn < self.nodes.len() {
                                        self.gather(cn as int, self.node_len(cn as int), st, spread, gs1, c2)
                                    } else {
                                        (gs1, c2)
                                    }
                                },
                                None => (gs1, c1),
                            },
                            None => (gs1, c1),
                        }
                    },
                }
            }
        }
    }

    /// The fields within the selection sets of the fields of `cs`, where those sets are
    /// valid, grouped by response name.
    pub open spec fn contained_fields(self, cs: Seq<FieldContextView<'a>>, c: Seq<Option<Seq<ErrorView<'a>>>>) -> (
        Seq<FieldGroupView<'a>>,
        Seq<Option<Seq<ErrorView<'a>>>>,
    )
        decreases none_count(c), self.max_measure(cs), 1nat, cs.len(),
    {
        if cs.len() == 0 {
            (Seq::empty(), c)
        } else {
            let (gs, c1) = self.contained_fields(cs.drop_last(), c);
            if none_count(c1) > none_count(c) {
                (gs, c1)
            } else {
                let x = cs.last();
                if x.field.selection_set@.len() > 0 {
                    match self.schema.type_index(spec_base_name(x.field_definition.type_ref)) {
                        Some(st) => {
                            let (valid, c2) = self.set_valid(x.node as int, st, c1);
                            if valid && none_count(c2) <= none_count(c1) {
                                self.gather(x.node as int, self.node_len(x.node as int), st, x.parent_fragments, gs, c2)
                            } else {
                                (gs, c2)
                            }
                        },
                        None => (gs, c1),
                    }
                } else {
                    (gs, c1)
                }
            }
        }
    }

    /// The fields of `rest` whose types differ in shape from that of `first`.
    pub open spec fn shape_errors(self, first: FieldContextView<'a>, rest: Seq<FieldContextView<'a>>, ss: int) -> Seq<
        ErrorView<'a>,
    >
        decreases rest.len(),
    {
        if rest.len() == 0 {
            Seq::empty()
        } else {
            let other = rest.last();
            self.shape_errors(first, rest.drop_last(), ss) + if !same_shape(
                *self.schema,
                first.field_definition.type_ref,
                other.field_definition.type_ref,
            ) {
                seq![
                    ErrorView::FieldSelectionsDoNotMergeIncompatibleTypes {
                        selection_set: self.nodes[ss].selections,
                        selection_set_span: self.nodes[ss].span,
                        field_a: first.field,
                        field_definition_a: first.field_definition,
                        field_b: other.field,
                        field_definition_b: other.field_definition,
                    },
                ]
            } else {
                Seq::empty()
            }
        }
    }

    /// The fields of one response name must have types of one shape: each against the
    /// first, or else the fields they contain, name by name.
    pub open spec fn same_response_shape(
        self,
        cs: Seq<FieldContextView<'a>>,
        ss: int,
        c: Seq<Option<Seq<ErrorView<'a>>>>,
    ) -> (Seq<ErrorView<'a>>, Seq<Option<Seq<ErrorView<'a>>>>)
        decreases none_count(c), self.max_measure(cs), 3nat, 0nat,
    {
        if cs.len() <= 1 {
            (Seq::empty(), c)
        } else {
            let errors = self.shape_errors(cs[0], cs.drop_first(), ss);
            if errors.len() > 0 {
                (errors, c)
            } else {
                let (gs, c1) = self.contained_fields(cs, c);
                if none_count(c1) <= none_count(c) {
                    self.shape_nested(gs, gs.len(), self.max_measure(cs), ss, c1)
                } else {
                    (Seq::empty(), c1)
                }
            }
        }
    }

    pub open spec fn shape_nested(
        self,
        gs: Seq<FieldGroupView<'a>>,
        k: nat,
        b: nat,
        ss: int,
        c: Seq<Option<Seq<ErrorView<'a>>>>,
    ) -> (Seq<ErrorView<'a>>, Seq<Option<Seq<ErrorView<'a>>>>)
        decreases none_count(c), b, 0nat, k,
    {
        if k == 0 || k > gs.len() {
            (Seq::empty(), c)
        } else {
            let (e1, c1) = self.shape_nested(gs, (k - 1) as nat, b, ss, c);
            if none_count(c1) <= none_count(c) && self.max_measure(gs[k - 1].contexts) < b {
                let (e2, c2) = self.same_response_shape(gs[k - 1].contexts, ss, c1);
                (e1 + e2, c2)
            } else {
                (e1, c1)
            }
        }
    }

    /// Splits fields by their parent type: those on interfaces, and those on object
    /// types grouped by the type's name. Fields on other types are left out.
    pub open spec fn parent_partition(self, cs: Seq<FieldContextView<'a>>) -> (
        Seq<FieldContextView<'a>>,
        Seq<FieldGroupView<'a>>,
    )
        decreases cs.len(),
    {
        if cs.len() == 0 {
            (Seq::empty(), Seq::empty())
        } else {
            let (a, g) = self.parent_partition(cs.drop_last());
            let x = cs.last();
            let t = self.schema.types@[x.parent_type as int];
            match t.kind {
                TypeDefinitionKind::Object { .. } => (a, group_insert(g, t.name@, x)),
                TypeDefinitionKind::Interface { .. } => (a.push(x), g),
                _ => (a, g),
            }
        }
    }

    /// The fields that may be on a common parent: each object type's with those on
    /// interfaces, or those on interfaces alone where no object type has any.
    pub open spec fn common_parent_groups(self, cs: Seq<FieldContextView<'a>>) -> Seq<Seq<FieldContextView<'a>>> {
        let (a, g) = self.parent_partition(cs);
        if g.len() == 0 {
            seq![a]
        } else {
            g.map_values(|x: FieldGroupView<'a>| x.contexts + a)
        }
    }

    /// The fields of `rest` that select another field than `first`, or the same with
    /// other arguments.
    pub open spec fn name_argument_errors(
        self,
        first: FieldContextView<'a>,
        rest: Seq<FieldContextView<'a>>,
        ss: int,
    ) -> Seq<ErrorView<'a>>
        decreases rest.len(),
    {
        if rest.len() == 0 {
            Seq::empty()
        } else {
            let other = rest.last();
            self.name_argument_errors(first, rest.drop_last(), ss) + if first.field.name@ != other.field.name@ {
                seq![
                    ErrorView::FieldSelectionsDoNotMergeDifferingNames {
                        selection_set: self.nodes[ss].selections,
                        selection_set_span: self.nodes[ss].span,
                        field_a: first.field,
                        field_b: other.field,
                    },
                ]
            } else if !arguments_eq(first.field.arguments@, other.field.arguments@) {
                seq![
                    ErrorView::FieldSelectionsDoNotMergeDifferingArguments {
                        selection_set: self.nodes[ss].selections,
                        selection_set_span: self.nodes[ss].span,
                        field_a: first.field,
                        field_b: other.field,
                    },
                ]
            } else {
                Seq::empty()
            }
        }
    }

    /// The fields of one response name that may be on a common parent must select the
    /// same field with equal arguments, each against the first of its group, or else
    /// the fields they contain, name by name.
    pub open spec fn same_for_common_parents(
        self,
        cs: Seq<FieldContextView<'a>>,
        ss: int,
        c: Seq<Option<Seq<ErrorView<'a>>>>,
    ) -> (Seq<ErrorView<'a>>, Seq<Option<Seq<ErrorView<'a>>>>)
        decreases none_count(c), self.max_measure(cs), 3nat, 0nat,
    {
        if cs.len() <= 1 {
            (Seq::empty(), c)
        } else {
            let groups = self.common_parent_groups(cs);
            self.common_groups(groups, groups.len(), self.max_measure(cs), ss, c)
        }
    }

    pub open spec fn common_groups(
        self,
        groups: Seq<Seq<FieldContextView<'a>>>,
        k: nat,
        b: nat,
        ss: int,
        c: Seq<Option<Seq<ErrorView<'a>>>>,
    ) -> (Seq<ErrorView<'a>>, Seq<Option<Seq<ErrorView<'a>>>>)
        decreases none_count(c), b, 2nat, k,
    {
        if k == 0 || k > groups.len() {
            (Seq::empty(), c)
        } else {
            let (e1, c1) = self.common_groups(groups, (k - 1) as nat, b, ss, c);
            let g = groups[k - 1];
            if none_count(c1) <= none_count(c) && self.max_measure(g) <= b {
                let errors = if g.len() > 0 {
                    self.name_argument_errors(g[0], g.drop_first(), ss)
                } else {
                    Seq::empty()
                };
                if errors.len() > 0 {
                    (e1 + errors, c1)
                } else {
                    let (gs, c2) = self.contained_fields(g, c1);
                    if none_count(c2) <= none_count(c1) {
                        let (e2, c3) = self.common_nested(gs, gs.len(), self.max_measure(g), ss, c2);
                        (e1 + e2, c3)
                    } else {
                        (e1, c2)
                    }
                }
            } else {
                (e1, c1)
            }
        }
    }

    pub open spec fn common_nested(
        self,
        gs: Seq<FieldGroupView<'a>>,
        k: nat,
        b: nat,
        ss: int,
        c: Seq<Option<Seq<ErrorView<'a>>>>,
    ) -> (Seq<ErrorView<'a>>, Seq<Option<Seq<ErrorView<'a>>>>)
        decreases none_count(c), b, 0nat, k,
    {
        if k == 0 || k > gs.len() {
            (Seq::empty(), c)
        } else {
            let (e1, c1) = self.common_nested(gs, (k - 1) as nat, b, ss, c);
            if none_count(c1) <= none_count(c) && self.max_measure(gs[k - 1].contexts) < b {
                let (e2, c2) = self.same_for_common_parents(gs[k - 1].contexts, ss, c1);
                (e1 + e2, c2)
            } else {
                (e1, c1)
            }
        }
    }

    /// The errors of the first `k` groups of a set's fields: shapes, then common parents.
    pub open spec fn groups_can_merge(
        self,
        gs: Seq<FieldGroupView<'a>>,
        k: nat,
        ss: int,
        c: Seq<Option<Seq<ErrorView<'a>>>>,
    ) -> (Seq<ErrorView<'a>>, Seq<Option<Seq<ErrorView<'a>>>>)
        decreases none_count(c), self.top(), 4nat, k,
    {
        if k == 0 || k > gs.len() {
            (Seq::empty(), c)
        } else {
            let (e1, c1) = self.groups_can_merge(gs, (k - 1) as nat, ss, c);
            let g = gs[k - 1].contexts;
            if none_count(c1) <= none_count(c) && self.max_measure(g) <= self.top() {
                let (e2, c2) = self.same_response_shape(g, ss, c1);
                if none_count(c2) <= none_count(c1) {
                    let (e3, c3) = self.same_for_common_parents(g, ss, c2);
                    (e1 + e2 + e3, c3)
                } else {
                    (e1 + e2, c2)
                }
            } else {
                (e1, c1)
            }
        }
    }

    /// The cache after checking each visited set in turn.
    pub open spec fn run_visits(self, visits: Seq<(int, int)>, c: Seq<Option<Seq<ErrorView<'a>>>>) -> Seq<
        Option<Seq<ErrorView<'a>>>,
    >
        decreases visits.len(),
    {
        if visits.len() == 0 {
            c
        } else {
            let c1 = self.run_visits(visits.drop_last(), c);
            self.set_valid(visits.last().0, visits.last().1, c1).1
        }
    }
}

/// The errors in the cache, set by set in the order of the sets' numbers.
pub open spec fn cached_errors<'a>(c: Seq<Option<Seq<ErrorView<'a>>>>) -> Seq<ErrorView<'a>>
    decreases c.len(),
{
    if c.len() == 0 {
        Seq::empty()
    } else {
        cached_errors(c.drop_last()) + match c.last() {
            Some(e) => e,
            None => Seq::empty(),
        }
    }
}

pub open spec fn document_scope<'a>(schema: &'a SchemaDefinition, document: &'a ExecutableDocument) -> MergeScope<
    'a,
> {
    MergeScope {
        schema,
        document,
        nodes: document_nodes(document),
        fragment_nodes: document_fragment_nodes(document),
    }
}

/// The errors of the rule.
pub open spec fn field_selection_merging_errors<'a>(
    schema: &'a SchemaDefinition,
    document: &'a ExecutableDocument,
) -> Seq<ErrorView<'a>> {
    let scope = document_scope(schema, document);
    cached_errors(
        scope.run_visits(
            document_visits(*schema, document),
            Seq::new(scope.nodes.len(), |i: int| None),
        ),
    )
}

pub open spec fn cache_view<'a>(c: Seq<Option<Vec<Error<'a>>>>) -> Seq<Option<Seq<ErrorView<'a>>>> {
    c.map_values(
        |e: Option<Vec<Error<'a>>>|
            match e {
                Some(v) => Some(errors_view(v@)),
                None => None,
            },
    )
}

pub open spec fn group_lists_view<'a>(gs: Seq<Vec<FieldContext<'a>>>) -> Seq<Seq<FieldContextView<'a>>> {
    gs.map_values(|g: Vec<FieldContext<'a>>| contexts_view(g@))
}

fn contains_name_ref(v: &Vec<&String>, name: &String) -> (r: bool)
    ensures
        r == names_view(v@).contains(name@),
{
    let mut i: usize = 0;
    while i < v.len()
        invariant
            i <= v.len(),
            forall|j: int| 0 <= j < i ==> names_view(v@)[j] != name@,
        decreases v.len() - i,
    {
        if *v[i] == *name {
            proof { assert(names_view(v@)[i as int] == name@); }
            return true;
        }
        i += 1;
    }
    false
}

fn copy_contexts<'a>(v: &Vec<FieldContext<'a>>, out: &mut Vec<FieldContext<'a>>)
    ensures
        contexts_view(final(out)@) == contexts_view(old(out)@) + contexts_view(v@),
{
    let ghost start = contexts_view(out@);
    let mut i: usize = 0;
    while i < v.len()
        invariant
            i <= v.len(),
            contexts_view(out@) == start + contexts_view(v@).take(i as int),
        decreases v.len() - i,
    {
        let ghost before = contexts_view(out@);
        out.push(v[i].copy());
        proof {
            assert(contexts_view(out@) =~= before.push(v@[i as int]@));
            assert(contexts_view(v@).take(i + 1) =~= contexts_view(v@).take(i as int).push(v@[i as int]@));
        }
        i += 1;
    }
    proof { assert(contexts_view(v@).take(i as int) =~= contexts_view(v@)); }
}

struct Merger<'a> {
    schema: &'a SchemaDefinition,
    document: &'a ExecutableDocument,
    sets: SelectionSets<'a>,
    cached_errors: Vec<Option<Vec<Error<'a>>>>,
}

impl<'a> Merger<'a> {
    spec fn scope(self) -> MergeScope<'a> {
        MergeScope {
            schema: self.schema,
            document: self.document,
            nodes: nodes_view(self.sets.nodes@),
            fragment_nodes: self.sets.fragment_nodes@,
        }
    }

    spec fn cache(self) -> Seq<Option<Seq<ErrorView<'a>>>> {
        cache_view(self.cached_errors@)
    }

    spec fn inv(self) -> bool {
        &&& self.sets.wf(self.document)
        &&& self.cached_errors@.len() == self.sets.nodes@.len()
        &&& nodes_wf_from(nodes_view(self.sets.nodes@), 0)
    }

    spec fn same(self, other: Self) -> bool {
        &&& self.schema == other.schema
        &&& self.document == other.document
        &&& self.sets == other.sets
    }

    fn set_valid(&mut self, n: usize, ty: usize) -> (r: bool)
        requires
            old(self).inv(),
            n < old(self).sets.nodes@.len(),
            valid_type(*old(self).schema, ty as int),
        ensures
            final(self).inv(),
            final(self).same(*old(self)),
            (r, final(self).cache()) == old(self).scope().set_valid(n as int, ty as int, old(self).cache()),
            none_count(final(self).cache()) <= none_count(old(self).cache()),
        decreases none_count(old(self).cache()), 0nat, 0nat, 0nat,
    {
        let ghost c0 = self.cache();
        let ghost scope = self.scope();
        match &self.cached_errors[n] {
            Some(errors) => {
                return errors.len() == 0;
            },
            None => {},
        }
        proof { assert(errors_view(Seq::<Error<'a>>::empty()) =~= Seq::<ErrorView<'a>>::empty()); }
        self.cached_errors.set(n, Some(Vec::new()));
        proof {
            lemma_none_count_update(c0, n as int, Seq::empty());
            assert(self.cache() =~= c0.update(n as int, Some(Seq::empty())));
        }
        let ghost c1 = self.cache();
        let mut groups: Vec<FieldGroup<'a>> = Vec::new();
        let spread: Vec<&'a String> = Vec::new();
        proof {
            assert(groups_view(groups@) =~= Seq::<FieldGroupView<'a>>::empty());
            assert(names_view(spread@) =~= Seq::<Seq<char>>::empty());
            scope.lemma_measure_bound(Seq::empty(), n as int);
        }
        self.gather(n, ty, &spread, &mut groups, Ghost(scope.top()));
        let ghost c2 = self.cache();
        let errors = self.groups_can_merge(&groups, n);
        let valid = errors.len() == 0;
        let ghost ev = errors_view(errors@);
        let ghost c3 = self.cache();
        self.cached_errors.set(n, Some(errors));
        proof {
            assert(self.cache() =~= c3.update(n as int, Some(ev)));
            lemma_none_count_update(c3, n as int, ev);
        }
        valid
    }

    fn gather(
        &mut self,
        n: usize,
        ty: usize,
        spread: &Vec<&'a String>,
        groups: &mut Vec<FieldGroup<'a>>,
        Ghost(b): Ghost<nat>,
    )
        requires
            old(self).inv(),
            n < old(self).sets.nodes@.len(),
            valid_type(*old(self).schema, ty as int),
            old(self).scope().groups_ok(groups_view(old(groups)@), b),
            old(self).scope().measure(names_view(spread@), n as int) <= b,
        ensures
            final(self).inv(),
            final(self).same(*old(self)),
            (groups_view(final(groups)@), final(self).cache()) == old(self).scope().gather(
                n as int,
                old(self).scope().node_len(n as int),
                ty as int,
                names_view(spread@),
                groups_view(old(groups)@),
                old(self).cache(),
            ),
            none_count(final(self).cache()) <= none_count(old(self).cache()),
            old(self).scope().groups_ok(groups_view(final(groups)@), b),
        decreases
            none_count(old(self).cache()),
            old(self).scope().measure(names_view(spread@), n as int),
            0nat,
            old(self).scope().node_len(n as int) + 1,
    {
        let ghost orig = *self;
        let ghost scope = self.scope();
        let ghost c0 = self.cache();
        let ghost g0 = groups_view(groups@);
        let ghost sp = names_view(spread@);
        let schema: &'a SchemaDefinition = self.schema;
        let document: &'a ExecutableDocument = self.document;
        let sels: &'a Vec<Selection> = self.sets.nodes[n].selections;
        proof {
            assert(node_ok(scope.nodes, n as int));
            assert(selections_wf(scope.nodes[n as int].selections@));
        }
        let mut k: usize = 0;
        while k < sels.len()
            invariant
                k <= sels@.len(),
                self.inv(),
                self.same(orig),
                scope == self.scope(),
                scope == orig.scope(),
                c0 == orig.cache(),
                scope == old(self).scope(),
                c0 == old(self).cache(),
                sels == scope.nodes[n as int].selections,
                n < scope.nodes.len(),
                node_ok(scope.nodes, n as int),
                selections_wf(sels@),
                valid_type(*schema, ty as int),
                schema == self.schema,
                document == self.document,
                sp == names_view(spread@),
                scope.measure(sp, n as int) <= b,
                (groups_view(groups@), self.cache()) == scope.gather(n as int, k as nat, ty as int, sp, g0, c0),
                none_count(self.cache()) <= none_count(c0),
                scope.groups_ok(groups_view(groups@), b),
            decreases sels@.len() - k,
        {
            let ghost gk = groups_view(groups@);
            let ghost ck = self.cache();
            let child: Option<usize> = self.sets.nodes[n].children[k];
            proof {
                assert(child == scope.nodes[n as int].children[k as int]);
                assert(selection_wf(sels@[k as int]));
            }
            match &sels[k] {
                Selection::Field(f) => {
                    match schema.types[ty].fields() {
                        Some(fds) => match find_field(fds, &f.name) {
                            Some(fi) => match child {
                                Some(cn) => {
                                    let ctx = FieldContext {
                                        field: f,
                                        field_definition: &fds[fi],
                                        parent_type: ty,
                                        parent_fragments: copy_names(spread),
                                        node: cn,
                                    };
                                    proof {
                                        assert(n < cn < scope.nodes.len());
                                        assert(scope.contexts_ok(seq![ctx@]));
                                        assert(scope.context_measure(ctx@) < scope.measure(sp, n as int));
                                        scope.lemma_group_insert_ok(gk, spec_response_name(*f), ctx@, b);
                                    }
                                    add_to_group(groups, f.response_name(), ctx);
                                },
                                None => {},
                            },
                            None => {},
                        },
                        None => {},
                    }
                },
                Selection::FragmentSpread(s) => {
                    if !contains_name_ref(spread, &s.name) {
                        match document.fragment_definition(&s.name) {
                            Some(j) => match schema.get_type_definition(
                                &document.fragment_definitions[j].type_condition,
                            ) {
                                Some(st) => {
                                    proof { assert(self.sets.fragment_nodes@[j as int] < self.sets.nodes@.len()); }
                                    let root = self.sets.fragment_nodes[j];
                                    let valid = self.set_valid(root, ty);
                                    if valid {
                                        let mut sp2 = copy_names(spread);
                                        sp2.push(&s.name);
                                        proof {
                                            assert(names_view(sp2@) =~= sp.push(s.name@));
                                            assert(document.fragment_definitions@[j as int].name@ == s.name@) by {
                                                crate::common::lemma_last_index(
                                                    document.fragment_definitions@,
                                                    |fd: crate::document::FragmentDefinition| fd.name@ == s.name@,
                                                );
                                            }
                                            lemma_missing_count_push(
                                                document.fragment_definitions@,
                                                sp,
                                                s.name@,
                                                j as int,
                                            );
                                            scope.lemma_measure_spread(sp, s.name@, n as int, root as int);
                                        }
                                        self.gather(root, st, &sp2, groups, Ghost(b));
                                    }
                                },
                                None => {},
                            },
                            None => {},
                        }
                    }
                },
                Selection::InlineFragment(i) => {
                    let scoped = match &i.type_condition {
                        Some(tc) => schema.get_type_definition(tc),
                        None => Some(ty),
                    };
                    match scoped {
                        Some(st) => match child {
                            Some(cn) => {
                                proof { assert(n < cn < scope.nodes.len()); }
                                let valid = self.set_valid(cn, st);
                                if valid {
                                    self.gather(cn, st, spread, groups, Ghost(b));
                                }
                            },
                            None => {},
                        },
                        None => {},
                    }
                },
            }
            k += 1;
        }
    }

    fn contained_fields(&mut self, cs: &Vec<FieldContext<'a>>) -> (r: Vec<FieldGroup<'a>>)
        requires
            old(self).inv(),
            old(self).scope().contexts_ok(contexts_view(cs@)),
        ensures
            final(self).inv(),
            final(self).same(*old(self)),
            (groups_view(r@), final(self).cache()) == old(self).scope().contained_fields(
                contexts_view(cs@),
                old(self).cache(),
            ),
            none_count(final(self).cache()) <= none_count(old(self).cache()),
            old(self).scope().groups_ok(groups_view(r@), old(self).scope().max_measure(contexts_view(cs@))),
        decreases none_count(old(self).cache()), old(self).scope().max_measure(contexts_view(cs@)), 1nat, 0nat,
    {
        let ghost orig = *self;
        let ghost scope = self.scope();
        let ghost c0 = self.cache();
        let ghost csv = contexts_view(cs@);
        let ghost m = scope.max_measure(csv);
        let schema: &'a SchemaDefinition = self.schema;
        let mut groups: Vec<FieldGroup<'a>> = Vec::new();
        proof { assert(groups_view(groups@) =~= Seq::<FieldGroupView<'a>>::empty()); }
        let mut k: usize = 0;
        while k < cs.len()
            invariant
                k <= cs@.len(),
                self.inv(),
                self.same(orig),
                scope == self.scope(),
                scope == orig.scope(),
                c0 == orig.cache(),
                scope == old(self).scope(),
                c0 == old(self).cache(),
                schema == self.schema,
                csv == contexts_view(cs@),
                m == scope.max_measure(csv),
                scope.contexts_ok(csv),
                (groups_view(groups@), self.cache()) == scope.contained_fields(csv.take(k as int), c0),
                none_count(self.cache()) <= none_count(c0),
                scope.groups_ok(groups_view(groups@), m),
            decreases cs@.len() - k,
        {
            proof {
                assert(csv.take(k + 1).drop_last() =~= csv.take(k as int));
                assert(csv.take(k + 1).last() == csv[k as int]);
                assert(csv[k as int] == cs@[k as int]@);
            }
            let x = &cs[k];
            if x.field.selection_set.len() > 0 {
                match schema.get_type_definition(x.field_definition.type_ref.base_name()) {
                    Some(st) => {
                        let valid = self.set_valid(x.node, st);
                        if valid {
                            proof { scope.lemma_max_measure_ge(csv, k as int); }
                            self.gather(x.node, st, &x.parent_fragments, &mut groups, Ghost(m));
                        }
                    },
                    None => {},
                }
            }
            k += 1;
        }
        proof { assert(csv.take(k as int) =~= csv); }
        groups
    }

    fn shape_errors(&self, cs: &Vec<FieldContext<'a>>, ss: usize) -> (r: Vec<Error<'a>>)
        requires
            cs@.len() > 0,
            ss < self.sets.nodes@.len(),
        ensures
            errors_view(r@) == self.scope().shape_errors(
                contexts_view(cs@)[0],
                contexts_view(cs@).drop_first(),
                ss as int,
            ),
    {
        let ghost csv = contexts_view(cs@);
        let ghost scope = self.scope();
        let first = &cs[0];
        let mut errors: Vec<Error<'a>> = Vec::new();
        let mut j: usize = 1;
        proof {
            assert(csv.drop_first().take(0) =~= Seq::<FieldContextView<'a>>::empty());
            assert(errors_view(errors@) =~= Seq::<ErrorView<'a>>::empty());
        }
        while j < cs.len()
            invariant
                1 <= j <= cs@.len(),
                csv == contexts_view(cs@),
                scope == self.scope(),
                ss < self.sets.nodes@.len(),
                *first == cs@[0],
                errors_view(errors@) == scope.shape_errors(csv[0], csv.drop_first().take(j - 1), ss as int),
            decreases cs@.len() - j,
        {
            proof {
                assert(csv.drop_first().take(j as int).drop_last() =~= csv.drop_first().take(j - 1));
                assert(csv.drop_first().take(j as int).last() == csv[j as int]);
                assert(csv[j as int] == cs@[j as int]@);
                assert(scope.nodes[ss as int].selections == self.sets.nodes@[ss as int].selections);
            }
            let other = &cs[j];
            let ghost before = errors_view(errors@);
            if !same_output_type_shape(self.schema, &first.field_definition.type_ref, &other.field_definition.type_ref) {
                errors.push(
                    Error::FieldSelectionsDoNotMergeIncompatibleTypes {
                        selection_set: self.sets.nodes[ss].selections,
                        selection_set_span: self.sets.nodes[ss].span,
                        field_a: first.field,
                        field_definition_a: first.field_definition,
                        field_b: other.field,
                        field_definition_b: other.field_definition,
                    },
                );
                proof { assert(errors_view(errors@) =~= before.push(errors@.last()@)); }
            }
            j += 1;
        }
        proof { assert(csv.drop_first().take(j - 1) =~= csv.drop_first()); }
        errors
    }

    fn name_argument_errors(&self, cs: &Vec<FieldContext<'a>>, ss: usize) -> (r: Vec<Error<'a>>)
        requires
            cs@.len() > 0,
            ss < self.sets.nodes@.len(),
            self.scope().contexts_ok(contexts_view(cs@)),
        ensures
            errors_view(r@) == self.scope().name_argument_errors(
                contexts_view(cs@)[0],
                contexts_view(cs@).drop_first(),
                ss as int,
            ),
    {
        let ghost csv = contexts_view(cs@);
        let ghost scope = self.scope();
        let first = &cs[0];
        proof { assert(csv[0] == first@); }
        let mut errors: Vec<Error<'a>> = Vec::new();
        let mut j: usize = 1;
        proof {
            assert(csv.drop_first().take(0) =~= Seq::<FieldContextView<'a>>::empty());
            assert(errors_view(errors@) =~= Seq::<ErrorView<'a>>::empty());
        }
        while j < cs.len()
            invariant
                1 <= j <= cs@.len(),
                csv == contexts_view(cs@),
                scope == self.scope(),
                scope.contexts_ok(csv),
                ss < self.sets.nodes@.len(),
                *first == cs@[0],
                errors_view(errors@) == scope.name_argument_errors(csv[0], csv.drop_first().take(j - 1), ss as int),
            decreases cs@.len() - j,
        {
            proof {
                assert(csv.drop_first().take(j as int).drop_last() =~= csv.drop_first().take(j - 1));
                assert(csv.drop_first().take(j as int).last() == csv[j as int]);
                assert(csv[j as int] == cs@[j as int]@);
                assert(scope.nodes[ss as int].selections == self.sets.nodes@[ss as int].selections);
                assert(crate::value::arguments_wf(csv[0].field.arguments@));
                assert(crate::value::arguments_wf(csv[j as int].field.arguments@));
            }
            let other = &cs[j];
            let ghost before = errors_view(errors@);
            if first.field.name != other.field.name {
                errors.push(
                    Error::FieldSelectionsDoNotMergeDifferingNames {
                        selection_set: self.sets.nodes[ss].selections,
                        selection_set_span: self.sets.nodes[ss].span,
                        field_a: first.field,
                        field_b: other.field,
                    },
                );
                proof { assert(errors_view(errors@) =~= before.push(errors@.last()@)); }
            } else if !arguments_equal(&first.field.arguments, &other.field.arguments) {
                errors.push(
                    Error::FieldSelectionsDoNotMergeDifferingArguments {
                        selection_set: self.sets.nodes[ss].selections,
                        selection_set_span: self.sets.nodes[ss].span,
                        field_a: first.field,
                        field_b: other.field,
                    },
                );
                proof { assert(errors_view(errors@) =~= before.push(errors@.last()@)); }
            }
            j += 1;
        }
        proof { assert(csv.drop_first().take(j - 1) =~= csv.drop_first()); }
        errors
    }

    fn same_response_shape(&mut self, cs: &Vec<FieldContext<'a>>, ss: usize) -> (r: Vec<Error<'a>>)
        requires
            old(self).inv(),
            old(self).scope().contexts_ok(contexts_view(cs@)),
            ss < old(self).sets.nodes@.len(),
        ensures
            final(self).inv(),
            final(self).same(*old(self)),
            (errors_view(r@), final(self).cache()) == old(self).scope().same_response_shape(
                contexts_view(cs@),
                ss as int,
                old(self).cache(),
            ),
            none_count(final(self).cache()) <= none_count(old(self).cache()),
        decreases none_count(old(self).cache()), old(self).scope().max_measure(contexts_view(cs@)), 3nat, 0nat,
    {
        let ghost orig = *self;
        let ghost scope = self.scope();
        let ghost c0 = self.cache();
        let ghost csv = contexts_view(cs@);
        let ghost m = scope.max_measure(csv);
        if cs.len() <= 1 {
            let r: Vec<Error<'a>> = Vec::new();
            proof { assert(errors_view(r@) =~= Seq::<ErrorView<'a>>::empty()); }
            return r;
        }
        let errors = self.shape_errors(cs, ss);
        if errors.len() > 0 {
            return errors;
        }
        let gs = self.contained_fields(cs);
        let ghost gsv = groups_view(gs@);
        let ghost c1 = self.cache();
        let mut out: Vec<Error<'a>> = Vec::new();
        proof { assert(errors_view(out@) =~= Seq::<ErrorView<'a>>::empty()); }
        let mut k: usize = 0;
        while k < gs.len()
            invariant
                k <= gs@.len(),
                self.inv(),
                self.same(orig),
                scope == self.scope(),
                scope == orig.scope(),
                c0 == orig.cache(),
                scope == old(self).scope(),
                c0 == old(self).cache(),
                gsv == groups_view(gs@),
                scope.groups_ok(gsv, m),
                m == scope.max_measure(csv),
                csv == contexts_view(cs@),
                csv == contexts_view(cs@),
                ss < self.sets.nodes@.len(),
                none_count(c1) <= none_count(c0),
                none_count(self.cache()) <= none_count(c1),
                (errors_view(out@), self.cache()) == scope.shape_nested(gsv, k as nat, m, ss as int, c1),
            decreases gs@.len() - k,
        {
            proof {
                assert(gsv[k as int].contexts == contexts_view(gs@[k as int].contexts@));
                scope.lemma_max_measure_below(gsv[k as int].contexts, m);
            }
            let mut e = self.same_response_shape(&gs[k].contexts, ss);
            let ghost before = errors_view(out@);
            let ghost ev = errors_view(e@);
            out.append(&mut e);
            proof { assert(errors_view(out@) =~= before + ev); }
            k += 1;
        }
        out
    }

    fn common_parent_groups(&self, cs: &Vec<FieldContext<'a>>) -> (r: Vec<Vec<FieldContext<'a>>>)
        requires
            self.inv(),
            self.scope().contexts_ok(contexts_view(cs@)),
        ensures
            group_lists_view(r@) == self.scope().common_parent_groups(contexts_view(cs@)),
            forall|i: int|
                0 <= i < r@.len() ==> self.scope().contexts_ok(contexts_view(#[trigger] r@[i]@))
                    && self.scope().contexts_at_most(
                    contexts_view(r@[i]@),
                    self.scope().max_measure(contexts_view(cs@)),
                ),
    {
        let ghost csv = contexts_view(cs@);
        let ghost scope = self.scope();
        let ghost m = scope.max_measure(csv);
        let schema: &'a SchemaDefinition = self.schema;
        let mut abstract_group: Vec<FieldContext<'a>> = Vec::new();
        let mut concrete: Vec<FieldGroup<'a>> = Vec::new();
        proof {
            assert(contexts_view(abstract_group@) =~= Seq::<FieldContextView<'a>>::empty());
            assert(groups_view(concrete@) =~= Seq::<FieldGroupView<'a>>::empty());
        }
        let mut k: usize = 0;
        while k < cs.len()
            invariant
                k <= cs@.len(),
                csv == contexts_view(cs@),
                scope == self.scope(),
                schema == self.schema,
                m == scope.max_measure(csv),
                scope.contexts_ok(csv),
                (contexts_view(abstract_group@), groups_view(concrete@)) == scope.parent_partition(csv.take(k as int)),
                scope.contexts_ok(contexts_view(abstract_group@)),
                scope.contexts_at_most(contexts_view(abstract_group@), m),
                scope.groups_ok(groups_view(concrete@), m + 1),
            decreases cs@.len() - k,
        {
            proof {
                assert(csv.take(k + 1).drop_last() =~= csv.take(k as int));
                assert(csv.take(k + 1).last() == csv[k as int]);
                assert(csv[k as int] == cs@[k as int]@);
                scope.lemma_max_measure_ge(csv, k as int);
            }
            let x = &cs[k];
            let t = &schema.types[x.parent_type];
            match &t.kind {
                TypeDefinitionKind::Object { .. } => {
                    proof {
                        assert(scope.contexts_ok(seq![x@]));
                        scope.lemma_group_insert_ok(groups_view(concrete@), t.name@, x@, m + 1);
                    }
                    add_to_group(&mut concrete, &t.name, x.copy());
                },
                TypeDefinitionKind::Interface { .. } => {
                    let ghost before = contexts_view(abstract_group@);
                    abstract_group.push(x.copy());
                    proof { assert(contexts_view(abstract_group@) =~= before.push(x@)); }
                },
                _ => {},
            }
            k += 1;
        }
        proof { assert(csv.take(k as int) =~= csv); }
        let ghost av = contexts_view(abstract_group@);
        let ghost cv = groups_view(concrete@);
        let mut r: Vec<Vec<FieldContext<'a>>> = Vec::new();
        if concrete.len() == 0 {
            let mut g: Vec<FieldContext<'a>> = Vec::new();
            copy_contexts(&abstract_group, &mut g);
            r.push(g);
            proof {
                assert(contexts_view(g@) =~= av);
                assert(group_lists_view(r@) =~= seq![av]);
            }
            return r;
        }
        let mut i: usize = 0;
        proof { assert(group_lists_view(r@) =~= Seq::<Seq<FieldContextView<'a>>>::empty()); }
        while i < concrete.len()
            invariant
                i <= concrete@.len(),
                cv == groups_view(concrete@),
                av == contexts_view(abstract_group@),
                scope == self.scope(),
                scope.contexts_ok(av),
                scope.contexts_at_most(av, m),
                scope.groups_ok(cv, m + 1),
                group_lists_view(r@) == cv.take(i as int).map_values(|x: FieldGroupView<'a>| x.contexts + av),
                forall|j: int|
                    0 <= j < r@.len() ==> scope.contexts_ok(contexts_view(#[trigger] r@[j]@)) && scope.contexts_at_most(
                        contexts_view(r@[j]@),
                        m,
                    ),
            decreases concrete@.len() - i,
        {
            let mut g: Vec<FieldContext<'a>> = Vec::new();
            copy_contexts(&concrete[i].contexts, &mut g);
            copy_contexts(&abstract_group, &mut g);
            let ghost gv = contexts_view(g@);
            let ghost before = group_lists_view(r@);
            proof {
                assert(cv[i as int].contexts == contexts_view(concrete@[i as int].contexts@));
                assert(gv =~= cv[i as int].contexts + av);
                assert forall|j: int| 0 <= j < gv.len() implies (#[trigger] gv[j]).node < scope.nodes.len()
                    && crate::value::arguments_wf(gv[j].field.arguments@) && gv[j].parent_type
                    < scope.schema.types@.len() && scope.context_measure(gv[j]) <= m by {
                    if j < cv[i as int].contexts.len() {
                        assert(gv[j] == cv[i as int].contexts[j]);
                    } else {
                        assert(gv[j] == av[j - cv[i as int].contexts.len()]);
                    }
                }
            }
            r.push(g);
            proof {
                assert(group_lists_view(r@) =~= before.push(gv));
                assert(cv.take(i + 1).map_values(|x: FieldGroupView<'a>| x.contexts + av) =~= cv.take(
                    i as int,
                ).map_values(|x: FieldGroupView<'a>| x.contexts + av).push(cv[i as int].contexts + av));
            }
            i += 1;
        }
        proof {
            assert(cv.take(i as int) =~= cv);
        }
        r
    }

    fn same_for_common_parents(&mut self, cs: &Vec<FieldContext<'a>>, ss: usize) -> (r: Vec<Error<'a>>)
        requires
            old(self).inv(),
            old(self).scope().contexts_ok(contexts_view(cs@)),
            ss < old(self).sets.nodes@.len(),
        ensures
            final(self).inv(),
            final(self).same(*old(self)),
            (errors_view(r@), final(self).cache()) == old(self).scope().same_for_common_parents(
                contexts_view(cs@),
                ss as int,
                old(self).cache(),
            ),
            none_count(final(self).cache()) <= none_count(old(self).cache()),
        decreases none_count(old(self).cache()), old(self).scope().max_measure(contexts_view(cs@)), 3nat, 0nat,
    {
        let ghost orig = *self;
        let ghost scope = self.scope();
        let ghost c0 = self.cache();
        let ghost csv = contexts_view(cs@);
        let ghost m = scope.max_measure(csv);
        if cs.len() <= 1 {
            let r: Vec<Error<'a>> = Vec::new();
            proof { assert(errors_view(r@) =~= Seq::<ErrorView<'a>>::empty()); }
            return r;
        }
        let groups = self.common_parent_groups(cs);
        let ghost gl = group_lists_view(groups@);
        let mut out: Vec<Error<'a>> = Vec::new();
        proof { assert(errors_view(out@) =~= Seq::<ErrorView<'a>>::empty()); }
        let mut k: usize = 0;
        while k < groups.len()
            invariant
                k <= groups@.len(),
                self.inv(),
                self.same(orig),
                scope == self.scope(),
                scope == orig.scope(),
                c0 == orig.cache(),
                scope == old(self).scope(),
                c0 == old(self).cache(),
                gl == group_lists_view(groups@),
                m == scope.max_measure(csv),
                csv == contexts_view(cs@),
                ss < self.sets.nodes@.len(),
                forall|i: int|
                    0 <= i < groups@.len() ==> scope.contexts_ok(contexts_view(#[trigger] groups@[i]@))
                        && scope.contexts_at_most(contexts_view(groups@[i]@), m),
                none_count(self.cache()) <= none_count(c0),
                (errors_view(out@), self.cache()) == scope.common_groups(gl, k as nat, m, ss as int, c0),
            decreases groups@.len() - k,
        {
            let ghost ck = self.cache();
            let ghost ek = errors_view(out@);
            let g = &groups[k];
            let ghost gv = contexts_view(g@);
            proof {
                assert(gl[k as int] == gv);
                assert(scope.contexts_ok(gv));
                scope.lemma_max_measure_at_most(gv, m);
            }
            let mut errors: Vec<Error<'a>> = if g.len() > 0 {
                self.name_argument_errors(g, ss)
            } else {
                let e: Vec<Error<'a>> = Vec::new();
                proof { assert(errors_view(e@) =~= Seq::<ErrorView<'a>>::empty()); }
                e
            };
            if errors.len() > 0 {
                let ghost ev = errors_view(errors@);
                out.append(&mut errors);
                proof { assert(errors_view(out@) =~= ek + ev); }
            } else {
                let gs = self.contained_fields(g);
                let ghost gsv = groups_view(gs@);
                let ghost mg = scope.max_measure(gv);
                let ghost c2 = self.cache();
                let mut inner: Vec<Error<'a>> = Vec::new();
                proof { assert(errors_view(inner@) =~= Seq::<ErrorView<'a>>::empty()); }
                let mut i: usize = 0;
                while i < gs.len()
                    invariant
                        i <= gs@.len(),
                        self.inv(),
                        self.same(orig),
                        scope == self.scope(),
                        scope == old(self).scope(),
                        c0 == old(self).cache(),
                        csv == contexts_view(cs@),
                        m == scope.max_measure(csv),
                        gsv == groups_view(gs@),
                        scope.groups_ok(gsv, mg),
                        mg <= m,
                        mg == scope.max_measure(gv),
                        ss < self.sets.nodes@.len(),
                        none_count(c2) <= none_count(ck),
                        none_count(ck) <= none_count(c0),
                        none_count(self.cache()) <= none_count(c2),
                        (errors_view(inner@), self.cache()) == scope.common_nested(gsv, i as nat, mg, ss as int, c2),
                    decreases gs@.len() - i,
                {
                    proof {
                        assert(gsv[i as int].contexts == contexts_view(gs@[i as int].contexts@));
                        scope.lemma_max_measure_below(gsv[i as int].contexts, mg);
                    }
                    let mut e = self.same_for_common_parents(&gs[i].contexts, ss);
                    let ghost before = errors_view(inner@);
                    let ghost ev = errors_view(e@);
                    inner.append(&mut e);
                    proof { assert(errors_view(inner@) =~= before + ev); }
                    i += 1;
                }
                let ghost iv = errors_view(inner@);
                out.append(&mut inner);
                proof { assert(errors_view(out@) =~= ek + iv); }
            }
            k += 1;
        }
        out
    }

    fn groups_can_merge(&mut self, gs: &Vec<FieldGroup<'a>>, ss: usize) -> (r: Vec<Error<'a>>)
        requires
            old(self).inv(),
            old(self).scope().groups_ok(groups_view(gs@), old(self).scope().top()),
            ss < old(self).sets.nodes@.len(),
        ensures
            final(self).inv(),
            final(self).same(*old(self)),
            (errors_view(r@), final(self).cache()) == old(self).scope().groups_can_merge(
                groups_view(gs@),
                gs@.len() as nat,
                ss as int,
                old(self).cache(),
            ),
            none_count(final(self).cache()) <= none_count(old(self).cache()),
        decreases none_count(old(self).cache()), old(self).scope().top(), 4nat, 0nat,
    {
        let ghost orig = *self;
        let ghost scope = self.scope();
        let ghost c0 = self.cache();
        let ghost gsv = groups_view(gs@);
        let mut out: Vec<Error<'a>> = Vec::new();
        proof { assert(errors_view(out@) =~= Seq::<ErrorView<'a>>::empty()); }
        let mut k: usize = 0;
        while k < gs.len()
            invariant
                k <= gs@.len(),
                self.inv(),
                self.same(orig),
                scope == self.scope(),
                scope == orig.scope(),
                c0 == orig.cache(),
                scope == old(self).scope(),
                c0 == old(self).cache(),
                gsv == groups_view(gs@),
                scope.groups_ok(gsv, scope.top()),
                ss < self.sets.nodes@.len(),
                none_count(self.cache()) <= none_count(c0),
                (errors_view(out@), self.cache()) == scope.groups_can_merge(gsv, k as nat, ss as int, c0),
            decreases gs@.len() - k,
        {
            let ghost ek = errors_view(out@);
            proof {
                assert(gsv[k as int].contexts == contexts_view(gs@[k as int].contexts@));
                scope.lemma_max_measure_top(gsv[k as int].contexts);
            }
            let mut e2 = self.same_response_shape(&gs[k].contexts, ss);
            let mut e3 = self.same_for_common_parents(&gs[k].contexts, ss);
            let ghost v2 = errors_view(e2@);
            let ghost v3 = errors_view(e3@);
            out.append(&mut e2);
            out.append(&mut e3);
            proof { assert(errors_view(out@) =~= ek + v2 + v3); }
            k += 1;
        }
        out
    }
}

/// Reports the fields that cannot be merged, set by set.
pub fn field_selection_merging<'a>(document: &'a ExecutableDocument, schema: &'a SchemaDefinition) -> (r: Vec<
    Error<'a>,
>)
    requires
        document.wf(),
    ensures
        errors_view(r@) == field_selection_merging_errors(schema, document),
{
    let sets = SelectionSets::new(document);
    let visits = sets.visits(schema, document);
    let ghost vv = visits_view(visits@);
    let ghost scope = document_scope(schema, document);
    let mut empty_cache: Vec<Option<Vec<Error<'a>>>> = Vec::new();
    let mut i: usize = 0;
    while i < sets.nodes.len()
        invariant
            i <= sets.nodes@.len(),
            cache_view(empty_cache@) == Seq::new(i as nat, |j: int| None::<Seq<ErrorView<'a>>>),
        decreases sets.nodes@.len() - i,
    {
        let ghost before = empty_cache@;
        empty_cache.push(None);
        i += 1;
        proof {
            assert(cache_view(empty_cache@) =~= cache_view(before).push(None));
            assert(cache_view(empty_cache@) =~= Seq::new(i as nat, |j: int| None::<Seq<ErrorView<'a>>>));
        }
    }
    let mut merger = Merger { schema, document, sets, cached_errors: empty_cache };
    proof {
        assert(merger.scope() == scope);
        assert(merger.cache() =~= Seq::new(scope.nodes.len(), |j: int| None::<Seq<ErrorView<'a>>>));
    }
    let ghost init = merger.cache();
    let mut k: usize = 0;
    while k < visits.len()
        invariant
            k <= visits@.len(),
            merger.inv(),
            merger.scope() == scope,
            merger.schema == schema,
            merger.document == document,
            vv == visits_view(visits@),
            vv == document_visits(*schema, document),
            visits_valid(*schema, nodes_view(merger.sets.nodes@), visits@),
            merger.cache() == scope.run_visits(vv.take(k as int), init),
        decreases visits@.len() - k,
    {
        proof {
            assert(vv.take(k + 1).drop_last() =~= vv.take(k as int));
            assert(vv.take(k + 1).last() == vv[k as int]);
        }
        let (n, t) = visits[k];
        merger.set_valid(n, t);
        k += 1;
    }
    proof { assert(vv.take(k as int) =~= vv); }
    let mut cache = merger.cached_errors;
    let ghost cv = cache_view(cache@);
    proof { assert(cv.subrange(0, cv.len() as int) =~= cv); }
    let mut out: Vec<Error<'a>> = Vec::new();
    let mut j: usize = 0;
    proof { assert(errors_view(out@) =~= Seq::<ErrorView<'a>>::empty()); }
    while cache.len() > 0
        invariant
            j + cache@.len() == cv.len(),
            cv.len() <= usize::MAX,
            cache_view(cache@) == cv.subrange(j as int, cv.len() as int),
            errors_view(out@) == cached_errors(cv.take(j as int)),
        decreases cache@.len(),
    {
        let ghost before = errors_view(out@);
        let ghost rest = cache@;
        let entry = cache.remove(0);
        proof {
            assert(cv.take(j + 1).drop_last() =~= cv.take(j as int));
            assert(cv.take(j + 1).last() == cv[j as int]);
            assert(cache_view(rest) == cv.subrange(j as int, cv.len() as int));
            assert(cv[j as int] == cache_view(rest)[0]);
            assert(cache@ == rest.remove(0));
            assert(cache_view(cache@) =~= cache_view(rest).subrange(1, rest.len() as int));
            assert(cache_view(cache@) =~= cv.subrange(j + 1, cv.len() as int));
        }
        match entry {
            Some(mut errors) => {
                let ghost ev = errors_view(errors@);
                out.append(&mut errors);
                proof { assert(errors_view(out@) =~= before + ev); }
            },
            None => {
                proof { assert(errors_view(out@) =~= before + Seq::<ErrorView<'a>>::empty()); }
            },
        }
        j += 1;
    }
    proof { assert(cv.take(j as int) =~= cv); }
    out
}

} // verus!
