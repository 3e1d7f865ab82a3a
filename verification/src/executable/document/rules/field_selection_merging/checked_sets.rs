//! Every selection set the merge check visits is checked: the check of a set only
//! ever adds entries to the cache the errors are read from, and leaves one for the set.
use vstd::prelude::*;
use crate::document::{ExecutableDocument, Selection};
use crate::executable::document::error::ErrorView;
use crate::executable::document::rules::field_selection_merging::document_scope;
use crate::executable::document::selection_sets::document_visits;
use crate::schema::SchemaDefinition;
use super::contexts::{FieldContextView, FieldGroupView, MergeScope, lemma_none_count_update, none_count};

verus! {

/// `d` keeps every entry that `c` holds, and has as many.
pub open spec fn cache_grows<'a>(c: Seq<Option<Seq<ErrorView<'a>>>>, d: Seq<Option<Seq<ErrorView<'a>>>>) -> bool {
    &&& d.len() == c.len()
    &&& forall|i: int| 0 <= i < c.len() && (#[trigger] c[i]) is Some ==> d[i] is Some
}

proof fn lemma_grows_none_count<'a>(c: Seq<Option<Seq<ErrorView<'a>>>>, d: Seq<Option<Seq<ErrorView<'a>>>>)
    requires
        cache_grows(c, d),
    ensures
        none_count(d) <= none_count(c),
    decreases c.len(),
{
    if c.len() > 0 {
        assert(cache_grows(c.drop_last(), d.drop_last())) by {
            assert forall|i: int|
                0 <= i < c.drop_last().len() && (#[trigger] c.drop_last()[i]) is Some implies d.drop_last()[i] is Some by {
                assert(c.drop_last()[i] == c[i]);
                assert(d.drop_last()[i] == d[i]);
            }
        }
        lemma_grows_none_count(c.drop_last(), d.drop_last());
        assert(c.last() == c[c.len() - 1]);
        assert(d.last() == d[d.len() - 1]);
    }
}

impl<'a> MergeScope<'a> {
    proof fn lemma_set_valid_grows(self, n: int, ty: int, c: Seq<Option<Seq<ErrorView<'a>>>>)
        ensures
            cache_grows(c, self.set_valid(n, ty, c).1),
            0 <= n < c.len() ==> self.set_valid(n, ty, c).1[n] is Some,
        decreases none_count(c), 0nat, 0nat, 0nat,
    {
        if 0 <= n < c.len() {
            if c[n] is None {
                let c1 = c.update(n, Some(Seq::empty()));
                lemma_none_count_update(c, n, Seq::empty());
                let (groups, c2) = self.gather(n, self.node_len(n), ty, Seq::empty(), Seq::empty(), c1);
                self.lemma_gather_grows(n, self.node_len(n), ty, Seq::empty(), Seq::empty(), c1);
                lemma_grows_none_count(c1, c2);
                let (errors, c3) = self.groups_can_merge(groups, groups.len(), n, c2);
                self.lemma_groups_can_merge_grows(groups, groups.len(), n, c2);
                lemma_grows_none_count(c2, c3);
                let c4 = c3.update(n, Some(errors));
                assert(self.set_valid(n, ty, c).1 == c4);
                assert(cache_grows(c, c1)) by {
                    assert forall|i: int| 0 <= i < c.len() && (#[trigger] c[i]) is Some implies c1[i] is Some by {
                        assert(i != n);
                    }
                }
                assert(cache_grows(c, c4)) by {
                    assert forall|i: int| 0 <= i < c.len() && (#[trigger] c[i]) is Some implies c4[i] is Some by {
                        assert(c1[i] is Some);
                        assert(c2[i] is Some);
                        assert(c3[i] is Some);
                    }
                }
            }
        }
    }

    proof fn lemma_gather_grows(
        self,
        n: int,
        k: nat,
        ty: int,
        spread: Seq<Seq<char>>,
        gs: Seq<FieldGroupView<'a>>,
        c: Seq<Option<Seq<ErrorView<'a>>>>,
    )
        ensures
            cache_grows(c, self.gather(n, k, ty, spread, gs, c).1),
        decreases none_count(c), self.measure(spread, n), 0nat, k + 1,
    {
        if !(k == 0 || !(0 <= n < self.nodes.len()) || k > self.nodes[n].selections@.len() || k
            > self.nodes[n].children.len()) {
            let (gs1, c1) = self.gather(n, (k - 1) as nat, ty, spread, gs, c);
            self.lemma_gather_grows(n, (k - 1) as nat, ty, spread, gs, c);
            lemma_grows_none_count(c, c1);
            match self.nodes[n].selections@[k - 1] {
                Selection::Field(_) => {},
                Selection::FragmentSpread(s) => if !spread.contains(s.name@) {
                    match self.document.fragment_index(s.name@) {
                        Some(j) => match self.schema.type_index(
                            self.document.fragment_definitions@[j].type_condition@,
                        ) {
                            Some(st) => if 0 <= j < self.fragment_nodes.len() {
                                let root = self.fragment_nodes[j] as int;
                                let (valid, c2) = self.set_valid(root, ty, c1);
                                self.lemma_set_valid_grows(root, ty, c1);
                                lemma_grows_none_count(c1, c2);
                                if valid && self.missing(spread.push(s.name@)) < self.missing(spread) {
                                    self.lemma_measure_spread(spread, s.name@, n, root);
                                    self.lemma_gather_grows(
                                        root,
                                        self.node_len(root),
                                        st,
                                        spread.push(s.name@),
                                        gs1,
                                        c2,
                                    );
                                }
                            },
                            None => {},
                        },
                        None => {},
                    }
                },
                Selection::InlineFragment(i) => {
                    let scoped = match i.type_condition {
                        Some(tc) => self.schema.type_index(tc@),
                        None => Some(ty),
                    };
                    match scoped {
                        Some(st) => match self.nodes[n].children[k - 1] {
                            Some(cn) => {
                                let (valid, c2) = self.set_valid(cn as int, st, c1);
                                self.lemma_set_valid_grows(cn as int, st, c1);
                                lemma_grows_none_count(c1, c2);
                                if valid && n < cn < self.nodes.len() {
                                    self.lemma_gather_grows(cn as int, self.node_len(cn as int), st, spread, gs1, c2);
                                }
                            },
                            None => {},
                        },
                        None => {},
                    }
                },
            }
        }
    }

    proof fn lemma_contained_fields_grows(self, cs: Seq<FieldContextView<'a>>, c: Seq<Option<Seq<ErrorView<'a>>>>)
        ensures
            cache_grows(c, self.contained_fields(cs, c).1),
        decreases none_count(c), self.max_measure(cs), 1nat, cs.len(),
    {
        if cs.len() > 0 {
            let (gs, c1) = self.contained_fields(cs.drop_last(), c);
            self.lemma_contained_fields_grows(cs.drop_last(), c);
            lemma_grows_none_count(c, c1);
            let x = cs.last();
            if x.field.selection_set@.len() > 0 {
                match self.schema.type_index(crate::schema::spec_base_name(x.field_definition.type_ref)) {
                    Some(st) => {
                        let (valid, c2) = self.set_valid(x.node as int, st, c1);
                        self.lemma_set_valid_grows(x.node as int, st, c1);
                        lemma_grows_none_count(c1, c2);
                        if valid {
                            self.lemma_gather_grows(
                                x.node as int,
                                self.node_len(x.node as int),
                                st,
                                x.parent_fragments,
                                gs,
                                c2,
                            );
                        }
                    },
                    None => {},
                }
            }
        }
    }

    proof fn lemma_same_response_shape_grows(
        self,
        cs: Seq<FieldContextView<'a>>,
        ss: int,
        c: Seq<Option<Seq<ErrorView<'a>>>>,
    )
        ensures
            cache_grows(c, self.same_response_shape(cs, ss, c).1),
        decreases none_count(c), self.max_measure(cs), 3nat, 0nat,
    {
        if cs.len() > 1 {
            let errors = self.shape_errors(cs[0], cs.drop_first(), ss);
            if errors.len() == 0 {
                let (gs, c1) = self.contained_fields(cs, c);
                self.lemma_contained_fields_grows(cs, c);
                lemma_grows_none_count(c, c1);
                self.lemma_shape_nested_grows(gs, gs.len(), self.max_measure(cs), ss, c1);
            }
        }
    }

    proof fn lemma_shape_nested_grows(
        self,
        gs: Seq<FieldGroupView<'a>>,
        k: nat,
        b: nat,
        ss: int,
        c: Seq<Option<Seq<ErrorView<'a>>>>,
    )
        ensures
            cache_grows(c, self.shape_nested(gs, k, b, ss, c).1),
        decreases none_count(c), b, 0nat, k,
    {
        if k > 0 && k <= gs.len() {
            let (e1, c1) = self.shape_nested(gs, (k - 1) as nat, b, ss, c);
            self.lemma_shape_nested_grows(gs, (k - 1) as nat, b, ss, c);
            lemma_grows_none_count(c, c1);
            if self.max_measure(gs[k - 1].contexts) < b {
                self.lemma_same_response_shape_grows(gs[k - 1].contexts, ss, c1);
            }
        }
    }

    proof fn lemma_same_for_common_parents_grows(
        self,
        cs: Seq<FieldContextView<'a>>,
        ss: int,
        c: Seq<Option<Seq<ErrorView<'a>>>>,
    )
        ensures
            cache_grows(c, self.same_for_common_parents(cs, ss, c).1),
        decreases none_count(c), self.max_measure(cs), 3nat, 0nat,
    {
        if cs.len() > 1 {
            let groups = self.common_parent_groups(cs);
            self.lemma_common_groups_grows(groups, groups.len(), self.max_measure(cs), ss, c);
        }
    }

    proof fn lemma_common_groups_grows(
        self,
        groups: Seq<Seq<FieldContextView<'a>>>,
        k: nat,
        b: nat,
        ss: int,
        c: Seq<Option<Seq<ErrorView<'a>>>>,
    )
        ensures
            cache_grows(c, self.common_groups(groups, k, b, ss, c).1),
        decreases none_count(c), b, 2nat, k,
    {
        if k > 0 && k <= groups.len() {
            let (e1, c1) = self.common_groups(groups, (k - 1) as nat, b, ss, c);
            self.lemma_common_groups_grows(groups, (k - 1) as nat, b, ss, c);
            lemma_grows_none_count(c, c1);
            let g = groups[k - 1];
            if self.max_measure(g) <= b {
                let errors = if g.len() > 0 {
                    self.name_argument_errors(g[0], g.drop_first(), ss)
                } else {
                    Seq::empty()
                };
                if errors.len() == 0 {
                    let (gs, c2) = self.contained_fields(g, c1);
                    self.lemma_contained_fields_grows(g, c1);
                    lemma_grows_none_count(c1, c2);
                    self.lemma_common_nested_grows(gs, gs.len(), self.max_measure(g), ss, c2);
                }
            }
        }
    }

    proof fn lemma_common_nested_grows(
        self,
        gs: Seq<FieldGroupView<'a>>,
        k: nat,
        b: nat,
        ss: int,
        c: Seq<Option<Seq<ErrorView<'a>>>>,
    )
        ensures
            cache_grows(c, self.common_nested(gs, k, b, ss, c).1),
        decreases none_count(c), b, 0nat, k,
    {
        if k > 0 && k <= gs.len() {
            let (e1, c1) = self.common_nested(gs, (k - 1) as nat, b, ss, c);
            self.lemma_common_nested_grows(gs, (k - 1) as nat, b, ss, c);
            lemma_grows_none_count(c, c1);
            if self.max_measure(gs[k - 1].contexts) < b {
                self.lemma_same_for_common_parents_grows(gs[k - 1].contexts, ss, c1);
            }
        }
    }

    proof fn lemma_groups_can_merge_grows(
        self,
        gs: Seq<FieldGroupView<'a>>,
        k: nat,
        ss: int,
        c: Seq<Option<Seq<ErrorView<'a>>>>,
    )
        ensures
            cache_grows(c, self.groups_can_merge(gs, k, ss, c).1),
        decreases none_count(c), self.top(), 4nat, k,
    {
        if k > 0 && k <= gs.len() {
            let (e1, c1) = self.groups_can_merge(gs, (k - 1) as nat, ss, c);
            self.lemma_groups_can_merge_grows(gs, (k - 1) as nat, ss, c);
            lemma_grows_none_count(c, c1);
            let g = gs[k - 1].contexts;
            if self.max_measure(g) <= self.top() {
                let (e2, c2) = self.same_response_shape(g, ss, c1);
                self.lemma_same_response_shape_grows(g, ss, c1);
                lemma_grows_none_count(c1, c2);
                self.lemma_same_for_common_parents_grows(g, ss, c2);
            }
        }
    }

    proof fn lemma_run_visits_checks(self, visits: Seq<(int, int)>, c: Seq<Option<Seq<ErrorView<'a>>>>)
        ensures
            cache_grows(c, self.run_visits(visits, c)),
            forall|k: int|
                0 <= k < visits.len() && 0 <= (#[trigger] visits[k]).0 < c.len() ==> self.run_visits(
                    visits,
                    c,
                )[visits[k].0] is Some,
        decreases visits.len(),
    {
        if visits.len() > 0 {
            let c1 = self.run_visits(visits.drop_last(), c);
            self.lemma_run_visits_checks(visits.drop_last(), c);
            self.lemma_set_valid_grows(visits.last().0, visits.last().1, c1);
            assert forall|k: int|
                0 <= k < visits.len() && 0 <= (#[trigger] visits[k]).0 < c.len() implies self.run_visits(
                    visits,
                    c,
                )[visits[k].0] is Some by {
                if k < visits.len() - 1 {
                    assert(visits.drop_last()[k] == visits[k]);
                    assert(c1[visits[k].0] is Some);
                }
            }
        }
    }
}

/// Every selection set that the merge check visits is checked: the cache its errors are
/// read from holds an entry for each visited set.
pub proof fn lemma_visited_sets_are_checked<'a>(schema: &'a SchemaDefinition, document: &'a ExecutableDocument)
    ensures
        ({
            let scope = document_scope(schema, document);
            let visits = document_visits(*schema, document);
            let cache = scope.run_visits(visits, Seq::new(scope.nodes.len(), |i: int| None));
            &&& cache.len() == scope.nodes.len()
            &&& forall|k: int|
                0 <= k < visits.len() && 0 <= (#[trigger] visits[k]).0 < scope.nodes.len()
                    ==> cache[visits[k].0] is Some
        }),
{
    let scope = document_scope(schema, document);
    let init = Seq::new(scope.nodes.len(), |i: int| None::<Seq<ErrorView<'a>>>);
    scope.lemma_run_visits_checks(document_visits(*schema, document), init);
}

} // verus!
