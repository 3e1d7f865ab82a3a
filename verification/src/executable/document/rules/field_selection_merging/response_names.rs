//! Every error the merge check reports concerns two fields under one response name.
use vstd::prelude::*;
use crate::document::{ExecutableDocument, Selection, spec_response_name};
use crate::executable::document::error::ErrorView;
use crate::executable::document::rules::field_selection_merging::{
    cached_errors, document_scope, field_selection_merging_errors,
};
use crate::executable::document::selection_sets::document_visits;
use crate::schema::{SchemaDefinition, TypeDefinitionKind, field_index, spec_fields_of};
use super::contexts::{
    FieldContextView, FieldGroupView, MergeScope, group_index, group_insert, lemma_group_index,
    lemma_none_count_update, none_count,
};

verus! {

/// The error names two fields that share a response name.
pub open spec fn same_response_name_error<'a>(e: ErrorView<'a>) -> bool {
    match e {
        ErrorView::FieldSelectionsDoNotMergeIncompatibleTypes { field_a, field_b, .. } => spec_response_name(
            *field_a,
        ) == spec_response_name(*field_b),
        ErrorView::FieldSelectionsDoNotMergeDifferingNames { field_a, field_b, .. } => spec_response_name(
            *field_a,
        ) == spec_response_name(*field_b),
        ErrorView::FieldSelectionsDoNotMergeDifferingArguments { field_a, field_b, .. } => spec_response_name(
            *field_a,
        ) == spec_response_name(*field_b),
        _ => false,
    }
}

pub open spec fn same_name_errors<'a>(es: Seq<ErrorView<'a>>) -> bool {
    forall|i: int| 0 <= i < es.len() ==> same_response_name_error(#[trigger] es[i])
}

pub open spec fn cache_named<'a>(c: Seq<Option<Seq<ErrorView<'a>>>>) -> bool {
    forall|n: int| 0 <= n < c.len() ==> (#[trigger] c[n] matches Some(e) ==> same_name_errors(e))
}

/// Every field of `cs` has the response name `name`.
pub open spec fn named_contexts<'a>(cs: Seq<FieldContextView<'a>>, name: Seq<char>) -> bool {
    forall|i: int| 0 <= i < cs.len() ==> spec_response_name(*(#[trigger] cs[i]).field) == name
}

pub open spec fn one_name<'a>(cs: Seq<FieldContextView<'a>>) -> bool {
    cs.len() == 0 || named_contexts(cs, spec_response_name(*cs[0].field))
}

/// Each group holds fields of its own name.
pub open spec fn groups_named<'a>(gs: Seq<FieldGroupView<'a>>) -> bool {
    forall|k: int| 0 <= k < gs.len() ==> named_contexts((#[trigger] gs[k]).contexts, gs[k].name)
}

/// Every group holds fields of the name `name` alone.
pub open spec fn groups_all_named<'a>(gs: Seq<FieldGroupView<'a>>, name: Seq<char>) -> bool {
    forall|k: int| 0 <= k < gs.len() ==> named_contexts((#[trigger] gs[k]).contexts, name)
}

proof fn lemma_concat<'a>(a: Seq<ErrorView<'a>>, b: Seq<ErrorView<'a>>)
    requires
        same_name_errors(a),
        same_name_errors(b),
    ensures
        same_name_errors(a + b),
{
    assert forall|i: int| 0 <= i < (a + b).len() implies same_response_name_error(#[trigger] (a + b)[i]) by {
        if i < a.len() {
            assert((a + b)[i] == a[i]);
        } else {
            assert((a + b)[i] == b[i - a.len()]);
        }
    }
}

proof fn lemma_cache_update<'a>(c: Seq<Option<Seq<ErrorView<'a>>>>, n: int, e: Seq<ErrorView<'a>>)
    requires
        cache_named(c),
        same_name_errors(e),
        0 <= n < c.len(),
    ensures
        cache_named(c.update(n, Some(e))),
{
    assert forall|m: int| 0 <= m < c.update(n, Some(e)).len() implies (#[trigger] c.update(n, Some(e))[m] matches Some(x)
        ==> same_name_errors(x)) by {
        if m != n {
            assert(c.update(n, Some(e))[m] == c[m]);
        }
    }
}

proof fn lemma_group_insert_named<'a>(gs: Seq<FieldGroupView<'a>>, name: Seq<char>, c: FieldContextView<'a>)
    requires
        groups_named(gs),
        spec_response_name(*c.field) == name,
    ensures
        groups_named(group_insert(gs, name, c)),
{
    lemma_group_index(gs, name);
    let r = group_insert(gs, name, c);
    assert forall|k: int| 0 <= k < r.len() implies named_contexts((#[trigger] r[k]).contexts, r[k].name) by {
        match group_index(gs, name) {
            Some(i) => {
                if k == i {
                    let cs = gs[i].contexts.push(c);
                    assert forall|j: int| 0 <= j < cs.len() implies spec_response_name(*(#[trigger] cs[j]).field)
                        == name by {
                        if j < cs.len() - 1 {
                            assert(cs[j] == gs[i].contexts[j]);
                        }
                    }
                }
            },
            None => {
                if k == gs.len() {
                    assert(r[k].contexts == seq![c]);
                }
            },
        }
    }
}

proof fn lemma_group_insert_all_named<'a>(
    gs: Seq<FieldGroupView<'a>>,
    key: Seq<char>,
    c: FieldContextView<'a>,
    name: Seq<char>,
)
    requires
        groups_all_named(gs, name),
        spec_response_name(*c.field) == name,
    ensures
        groups_all_named(group_insert(gs, key, c), name),
{
    lemma_group_index(gs, key);
    let r = group_insert(gs, key, c);
    assert forall|k: int| 0 <= k < r.len() implies named_contexts((#[trigger] r[k]).contexts, name) by {
        match group_index(gs, key) {
            Some(i) => {
                if k == i {
                    let cs = gs[i].contexts.push(c);
                    assert forall|j: int| 0 <= j < cs.len() implies spec_response_name(*(#[trigger] cs[j]).field)
                        == name by {
                        if j < cs.len() - 1 {
                            assert(cs[j] == gs[i].contexts[j]);
                        }
                    }
                }
            },
            None => {
                if k == gs.len() {
                    assert(r[k].contexts == seq![c]);
                }
            },
        }
    }
}

impl<'a> MergeScope<'a> {
    proof fn lemma_set_valid_named(self, n: int, ty: int, c: Seq<Option<Seq<ErrorView<'a>>>>)
        requires
            cache_named(c),
        ensures
            cache_named(self.set_valid(n, ty, c).1),
        decreases none_count(c), 0nat, 0nat, 0nat,
    {
        if 0 <= n < c.len() {
            if c[n] is None {
                let c1 = c.update(n, Some(Seq::empty()));
                lemma_none_count_update(c, n, Seq::empty());
                lemma_cache_update(c, n, Seq::empty());
                let (groups, c2) = self.gather(n, self.node_len(n), ty, Seq::empty(), Seq::empty(), c1);
                self.lemma_gather_named(n, self.node_len(n), ty, Seq::empty(), Seq::empty(), c1);
                if none_count(c2) <= none_count(c1) {
                    let (errors, c3) = self.groups_can_merge(groups, groups.len(), n, c2);
                    self.lemma_groups_can_merge_named(groups, groups.len(), n, c2);
                    if none_count(c3) <= none_count(c2) && n < c3.len() {
                        lemma_cache_update(c3, n, errors);
                    }
                }
            }
        }
    }

    proof fn lemma_gather_named(
        self,
        n: int,
        k: nat,
        ty: int,
        spread: Seq<Seq<char>>,
        gs: Seq<FieldGroupView<'a>>,
        c: Seq<Option<Seq<ErrorView<'a>>>>,
    )
        requires
            cache_named(c),
            groups_named(gs),
        ensures
            groups_named(self.gather(n, k, ty, spread, gs, c).0),
            cache_named(self.gather(n, k, ty, spread, gs, c).1),
        decreases none_count(c), self.measure(spread, n), 0nat, k + 1,
    {
        if !(k == 0 || !(0 <= n < self.nodes.len()) || k > self.nodes[n].selections@.len() || k
            > self.nodes[n].children.len()) {
            let (gs1, c1) = self.gather(n, (k - 1) as nat, ty, spread, gs, c);
            self.lemma_gather_named(n, (k - 1) as nat, ty, spread, gs, c);
            if none_count(c1) <= none_count(c) {
                match self.nodes[n].selections@[k - 1] {
                    Selection::Field(f) => match spec_fields_of(self.schema.types@[ty].kind) {
                        Some(fds) => match field_index(fds, f.name@) {
                            Some(fi) => match self.nodes[n].children[k - 1] {
                                Some(cn) => {
                                    lemma_group_insert_named(
                                        gs1,
                                        spec_response_name(f),
                                        FieldContextView {
                                            field: &f,
                                            field_definition: &fds[fi],
                                            parent_type: ty as usize,
                                            parent_fragments: spread,
                                            node: cn,
                                        },
                                    );
                                },
                                None => {},
                            },
                            None => {},
                        },
                        None => {},
                    },
                    Selection::FragmentSpread(s) => if !spread.contains(s.name@) {
                        match self.document.fragment_index(s.name@) {
                            Some(j) => match self.schema.type_index(
                                self.document.fragment_definitions@[j].type_condition@,
                            ) {
                                Some(st) => if 0 <= j < self.fragment_nodes.len() {
                                    let root = self.fragment_nodes[j] as int;
                                    let (valid, c2) = self.set_valid(root, ty, c1);
                                    self.lemma_set_valid_named(root, ty, c1);
                                    if valid && none_count(c2) <= none_count(c1) && self.missing(
                                        spread.push(s.name@),
                                    ) < self.missing(spread) {
                                        self.lemma_measure_spread(spread, s.name@, n, root);
                                        self.lemma_gather_named(
                                            root,
                                            self.node_len(root),
                                            st,
                                            spread.push(s.name@),
                                            gs1,
                                            c2,
                                        );
                                    }
                                },
                                None => {},
                            },
                            None => {},
                        }
                    },
                    Selection::InlineFragment(i) => {
                        let scoped = match i.type_condition {
                            Some(tc) => self.schema.type_index(tc@),
                            None => Some(ty),
                        };
                        match scoped {
                            Some(st) => match self.nodes[n].children[k - 1] {
                                Some(cn) => {
                                    let (valid, c2) = self.set_valid(cn as int, st, c1);
                                    self.lemma_set_valid_named(cn as int, st, c1);
                                    if valid && none_count(c2) <= none_count(c1) && n < cn < self.nodes.len() {
                                        self.lemma_gather_named(cn as int, self.node_len(cn as int), st, spread, gs1, c2);
                                    }
                                },
                                None => {},
                            },
                            None => {},
                        }
                    },
                }
            }
        }
    }

    proof fn lemma_contained_fields_named(self, cs: Seq<FieldContextView<'a>>, c: Seq<Option<Seq<ErrorView<'a>>>>)
        requires
            cache_named(c),
        ensures
            groups_named(self.contained_fields(cs, c).0),
            cache_named(self.contained_fields(cs, c).1),
        decreases none_count(c), self.max_measure(cs), 1nat, cs.len(),
    {
        if cs.len() > 0 {
            let (gs, c1) = self.contained_fields(cs.drop_last(), c);
            self.lemma_contained_fields_named(cs.drop_last(), c);
            if none_count(c1) <= none_count(c) {
                let x = cs.last();
                if x.field.selection_set@.len() > 0 {
                    match self.schema.type_index(crate::schema::spec_base_name(x.field_definition.type_ref)) {
                        Some(st) => {
                            let (valid, c2) = self.set_valid(x.node as int, st, c1);
                            self.lemma_set_valid_named(x.node as int, st, c1);
                            if valid && none_count(c2) <= none_count(c1) {
                                self.lemma_gather_named(
                                    x.node as int,
                                    self.node_len(x.node as int),
                                    st,
                                    x.parent_fragments,
                                    gs,
                                    c2,
                                );
                            }
                        },
                        None => {},
                    }
                }
            }
        } else {
            assert(groups_named(Seq::<FieldGroupView<'a>>::empty()));
        }
    }

    proof fn lemma_shape_errors_named(self, first: FieldContextView<'a>, rest: Seq<FieldContextView<'a>>, ss: int)
        requires
            named_contexts(rest, spec_response_name(*first.field)),
        ensures
            same_name_errors(self.shape_errors(first, rest, ss)),
        decreases rest.len(),
    {
        if rest.len() > 0 {
            self.lemma_shape_errors_named(first, rest.drop_last(), ss);
            assert(spec_response_name(*rest[rest.len() - 1].field) == spec_response_name(*first.field));
            let other = rest.last();
            let step: Seq<ErrorView<'a>> = if !crate::executable::document::rules::field_selection_merging::equality::same_shape(
                *self.schema,
                first.field_definition.type_ref,
                other.field_definition.type_ref,
            ) {
                seq![
                    ErrorView::FieldSelectionsDoNotMergeIncompatibleTypes {
                        selection_set: self.nodes[ss].selections,
                        selection_set_span: self.nodes[ss].span,
                        field_a: first.field,
                        field_definition_a: first.field_definition,
                        field_b: other.field,
                        field_definition_b: other.field_definition,
                    },
                ]
            } else {
                Seq::empty()
            };
            assert(same_name_errors(step));
            lemma_concat(self.shape_errors(first, rest.drop_last(), ss), step);
        }
    }

    proof fn lemma_name_argument_errors_named(
        self,
        first: FieldContextView<'a>,
        rest: Seq<FieldContextView<'a>>,
        ss: int,
    )
        requires
            named_contexts(rest, spec_response_name(*first.field)),
        ensures
            same_name_errors(self.name_argument_errors(first, rest, ss)),
        decreases rest.len(),
    {
        if rest.len() > 0 {
            self.lemma_name_argument_errors_named(first, rest.drop_last(), ss);
            assert(spec_response_name(*rest[rest.len() - 1].field) == spec_response_name(*first.field));
            let other = rest.last();
            let step: Seq<ErrorView<'a>> = if first.field.name@ != other.field.name@ {
                seq![
                    ErrorView::FieldSelectionsDoNotMergeDifferingNames {
                        selection_set: self.nodes[ss].selections,
                        selection_set_span: self.nodes[ss].span,
                        field_a: first.field,
                        field_b: other.field,
                    },
                ]
            } else if !crate::executable::document::rules::field_selection_merging::equality::arguments_eq(
                first.field.arguments@,
                other.field.arguments@,
            ) {
                seq![
                    ErrorView::FieldSelectionsDoNotMergeDifferingArguments {
                        selection_set: self.nodes[ss].selections,
                        selection_set_span: self.nodes[ss].span,
                        field_a: first.field,
                        field_b: other.field,
                    },
                ]
            } else {
                Seq::empty()
            };
            assert(same_name_errors(step));
            lemma_concat(self.name_argument_errors(first, rest.drop_last(), ss), step);
        }
    }

    proof fn lemma_same_response_shape_named(
        self,
        cs: Seq<FieldContextView<'a>>,
        ss: int,
        c: Seq<Option<Seq<ErrorView<'a>>>>,
    )
        requires
            cache_named(c),
            one_name(cs),
        ensures
            same_name_errors(self.same_response_shape(cs, ss, c).0),
            cache_named(self.same_response_shape(cs, ss, c).1),
        decreases none_count(c), self.max_measure(cs), 3nat, 0nat,
    {
        if cs.len() > 1 {
            assert(named_contexts(cs.drop_first(), spec_response_name(*cs[0].field))) by {
                assert forall|i: int| 0 <= i < cs.drop_first().len() implies spec_response_name(
                    *(#[trigger] cs.drop_first()[i]).field,
                ) == spec_response_name(*cs[0].field) by {
                    assert(cs.drop_first()[i] == cs[i + 1]);
                }
            }
            self.lemma_shape_errors_named(cs[0], cs.drop_first(), ss);
            let errors = self.shape_errors(cs[0], cs.drop_first(), ss);
            if errors.len() == 0 {
                let (gs, c1) = self.contained_fields(cs, c);
                self.lemma_contained_fields_named(cs, c);
                if none_count(c1) <= none_count(c) {
                    self.lemma_shape_nested_named(gs, gs.len(), self.max_measure(cs), ss, c1);
                }
            }
        }
    }

    proof fn lemma_shape_nested_named(
        self,
        gs: Seq<FieldGroupView<'a>>,
        k: nat,
        b: nat,
        ss: int,
        c: Seq<Option<Seq<ErrorView<'a>>>>,
    )
        requires
            cache_named(c),
            groups_named(gs),
        ensures
            same_name_errors(self.shape_nested(gs, k, b, ss, c).0),
            cache_named(self.shape_nested(gs, k, b, ss, c).1),
        decreases none_count(c), b, 0nat, k,
    {
        if k > 0 && k <= gs.len() {
            let (e1, c1) = self.shape_nested(gs, (k - 1) as nat, b, ss, c);
            self.lemma_shape_nested_named(gs, (k - 1) as nat, b, ss, c);
            if none_count(c1) <= none_count(c) && self.max_measure(gs[k - 1].contexts) < b {
                assert(named_contexts(gs[k - 1].contexts, gs[k - 1].name));
                self.lemma_same_response_shape_named(gs[k - 1].contexts, ss, c1);
                lemma_concat(e1, self.same_response_shape(gs[k - 1].contexts, ss, c1).0);
            }
        }
    }

    proof fn lemma_parent_partition_named(self, cs: Seq<FieldContextView<'a>>, name: Seq<char>)
        requires
            named_contexts(cs, name),
        ensures
            named_contexts(self.parent_partition(cs).0, name),
            groups_all_named(self.parent_partition(cs).1, name),
        decreases cs.len(),
    {
        if cs.len() > 0 {
            assert(named_contexts(cs.drop_last(), name)) by {
                assert forall|i: int| 0 <= i < cs.drop_last().len() implies spec_response_name(
                    *(#[trigger] cs.drop_last()[i]).field,
                ) == name by {
                    assert(cs.drop_last()[i] == cs[i]);
                }
            }
            self.lemma_parent_partition_named(cs.drop_last(), name);
            let (a, g) = self.parent_partition(cs.drop_last());
            let x = cs.last();
            assert(spec_response_name(*cs[cs.len() - 1].field) == name);
            let t = self.schema.types@[x.parent_type as int];
            match t.kind {
                TypeDefinitionKind::Object { .. } => lemma_group_insert_all_named(g, t.name@, x, name),
                TypeDefinitionKind::Interface { .. } => {
                    assert forall|i: int| 0 <= i < a.push(x).len() implies spec_response_name(
                        *(#[trigger] a.push(x)[i]).field,
                    ) == name by {
                        if i < a.len() {
                            assert(a.push(x)[i] == a[i]);
                        }
                    }
                },
                _ => {},
            }
        }
    }

    proof fn lemma_common_parent_groups_named(self, cs: Seq<FieldContextView<'a>>)
        requires
            cs.len() > 0,
            one_name(cs),
        ensures
            forall|k: int|
                0 <= k < self.common_parent_groups(cs).len() ==> named_contexts(
                    #[trigger] self.common_parent_groups(cs)[k],
                    spec_response_name(*cs[0].field),
                ),
    {
        let name = spec_response_name(*cs[0].field);
        self.lemma_parent_partition_named(cs, name);
        let (a, g) = self.parent_partition(cs);
        let groups = self.common_parent_groups(cs);
        assert forall|k: int| 0 <= k < groups.len() implies named_contexts(#[trigger] groups[k], name) by {
            if g.len() > 0 {
                let x = g[k].contexts + a;
                assert(groups[k] == x);
                assert(named_contexts(g[k].contexts, name));
                assert forall|i: int| 0 <= i < x.len() implies spec_response_name(*(#[trigger] x[i]).field)
                    == name by {
                    if i < g[k].contexts.len() {
                        assert(x[i] == g[k].contexts[i]);
                    } else {
                        assert(x[i] == a[i - g[k].contexts.len()]);
                    }
                }
            } else {
                assert(groups[k] == a);
            }
        }
    }

    proof fn lemma_same_for_common_parents_named(
        self,
        cs: Seq<FieldContextView<'a>>,
        ss: int,
        c: Seq<Option<Seq<ErrorView<'a>>>>,
    )
        requires
            cache_named(c),
            one_name(cs),
        ensures
            same_name_errors(self.same_for_common_parents(cs, ss, c).0),
            cache_named(self.same_for_common_parents(cs, ss, c).1),
        decreases none_count(c), self.max_measure(cs), 3nat, 0nat,
    {
        if cs.len() > 1 {
            let groups = self.common_parent_groups(cs);
            self.lemma_common_parent_groups_named(cs);
            assert forall|k: int| 0 <= k < groups.len() implies one_name(#[trigger] groups[k]) by {
                let name = spec_response_name(*cs[0].field);
                assert(named_contexts(groups[k], name));
                if groups[k].len() > 0 {
                    assert(spec_response_name(*groups[k][0].field) == name);
                }
            }
            self.lemma_common_groups_named(groups, groups.len(), self.max_measure(cs), ss, c);
        }
    }

    proof fn lemma_common_groups_named(
        self,
        groups: Seq<Seq<FieldContextView<'a>>>,
        k: nat,
        b: nat,
        ss: int,
        c: Seq<Option<Seq<ErrorView<'a>>>>,
    )
        requires
            cache_named(c),
            forall|j: int| 0 <= j < groups.len() ==> one_name(#[trigger] groups[j]),
        ensures
            same_name_errors(self.common_groups(groups, k, b, ss, c).0),
            cache_named(self.common_groups(groups, k, b, ss, c).1),
        decreases none_count(c), b, 2nat, k,
    {
        if k > 0 && k <= groups.len() {
            let (e1, c1) = self.common_groups(groups, (k - 1) as nat, b, ss, c);
            self.lemma_common_groups_named(groups, (k - 1) as nat, b, ss, c);
            let g = groups[k - 1];
            assert(one_name(g));
            if none_count(c1) <= none_count(c) && self.max_measure(g) <= b {
                let errors = if g.len() > 0 {
                    self.name_argument_errors(g[0], g.drop_first(), ss)
                } else {
                    Seq::empty()
                };
                if g.len() > 0 {
                    assert(named_contexts(g.drop_first(), spec_response_name(*g[0].field))) by {
                        assert forall|i: int| 0 <= i < g.drop_first().len() implies spec_response_name(
                            *(#[trigger] g.drop_first()[i]).field,
                        ) == spec_response_name(*g[0].field) by {
                            assert(g.drop_first()[i] == g[i + 1]);
                        }
                    }
                    self.lemma_name_argument_errors_named(g[0], g.drop_first(), ss);
                }
                if errors.len() > 0 {
                    lemma_concat(e1, errors);
                } else {
                    let (gs, c2) = self.contained_fields(g, c1);
                    self.lemma_contained_fields_named(g, c1);
                    if none_count(c2) <= none_count(c1) {
                        self.lemma_common_nested_named(gs, gs.len(), self.max_measure(g), ss, c2);
                        lemma_concat(e1, self.common_nested(gs, gs.len(), self.max_measure(g), ss, c2).0);
                    }
                }
            }
        }
    }

    proof fn lemma_common_nested_named(
        self,
        gs: Seq<FieldGroupView<'a>>,
        k: nat,
        b: nat,
        ss: int,
        c: Seq<Option<Seq<ErrorView<'a>>>>,
    )
        requires
            cache_named(c),
            groups_named(gs),
        ensures
            same_name_errors(self.common_nested(gs, k, b, ss, c).0),
            cache_named(self.common_nested(gs, k, b, ss, c).1),
        decreases none_count(c), b, 0nat, k,
    {
        if k > 0 && k <= gs.len() {
            let (e1, c1) = self.common_nested(gs, (k - 1) as nat, b, ss, c);
            self.lemma_common_nested_named(gs, (k - 1) as nat, b, ss, c);
            if none_count(c1) <= none_count(c) && self.max_measure(gs[k - 1].contexts) < b {
                assert(named_contexts(gs[k - 1].contexts, gs[k - 1].name));
                self.lemma_same_for_common_parents_named(gs[k - 1].contexts, ss, c1);
                lemma_concat(e1, self.same_for_common_parents(gs[k - 1].contexts, ss, c1).0);
            }
        }
    }

    proof fn lemma_groups_can_merge_named(
        self,
        gs: Seq<FieldGroupView<'a>>,
        k: nat,
        ss: int,
        c: Seq<Option<Seq<ErrorView<'a>>>>,
    )
        requires
            cache_named(c),
            groups_named(gs),
        ensures
            same_name_errors(self.groups_can_merge(gs, k, ss, c).0),
            cache_named(self.groups_can_merge(gs, k, ss, c).1),
        decreases none_count(c), self.top(), 4nat, k,
    {
        if k > 0 && k <= gs.len() {
            let (e1, c1) = self.groups_can_merge(gs, (k - 1) as nat, ss, c);
            self.lemma_groups_can_merge_named(gs, (k - 1) as nat, ss, c);
            let g = gs[k - 1].contexts;
            if none_count(c1) <= none_count(c) && self.max_measure(g) <= self.top() {
                assert(named_contexts(g, gs[k - 1].name));
                let (e2, c2) = self.same_response_shape(g, ss, c1);
                self.lemma_same_response_shape_named(g, ss, c1);
                lemma_concat(e1, e2);
                if none_count(c2) <= none_count(c1) {
                    let (e3, c3) = self.same_for_common_parents(g, ss, c2);
                    self.lemma_same_for_common_parents_named(g, ss, c2);
                    lemma_concat(e1 + e2, e3);
                }
            }
        }
    }

    proof fn lemma_run_visits_named(self, visits: Seq<(int, int)>, c: Seq<Option<Seq<ErrorView<'a>>>>)
        requires
            cache_named(c),
        ensures
            cache_named(self.run_visits(visits, c)),
        decreases visits.len(),
    {
        if visits.len() > 0 {
            self.lemma_run_visits_named(visits.drop_last(), c);
            let c1 = self.run_visits(visits.drop_last(), c);
            self.lemma_set_valid_named(visits.last().0, visits.last().1, c1);
        }
    }
}

proof fn lemma_cached_errors_named<'a>(c: Seq<Option<Seq<ErrorView<'a>>>>)
    requires
        cache_named(c),
    ensures
        same_name_errors(cached_errors(c)),
    decreases c.len(),
{
    if c.len() > 0 {
        assert(cache_named(c.drop_last())) by {
            assert forall|n: int| 0 <= n < c.drop_last().len() implies (#[trigger] c.drop_last()[n] matches Some(
                e,
            ) ==> same_name_errors(e)) by {
                assert(c.drop_last()[n] == c[n]);
            }
        }
        lemma_cached_errors_named(c.drop_last());
        assert(c[c.len() - 1] == c.last());
        match c.last() {
            Some(e) => lemma_concat(cached_errors(c.drop_last()), e),
            None => lemma_concat(cached_errors(c.drop_last()), Seq::empty()),
        }
    }
}

/// The merge check only ever reports two fields that share a response name: fields
/// under different response names never conflict.
pub proof fn lemma_merge_errors_share_a_response_name<'a>(
    schema: &'a SchemaDefinition,
    document: &'a ExecutableDocument,
)
    ensures
        same_name_errors(field_selection_merging_errors(schema, document)),
{
    let scope = document_scope(schema, document);
    let init = Seq::new(scope.nodes.len(), |i: int| None::<Seq<ErrorView<'a>>>);
    assert(cache_named(init));
    scope.lemma_run_visits_named(document_visits(*schema, document), init);
    lemma_cached_errors_named(scope.run_visits(document_visits(*schema, document), init));
}

} // verus!
