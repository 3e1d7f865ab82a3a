//! The executable document model: operations, fragments and their selections.
use vstd::prelude::*;
use crate::common::{last_index, lemma_last_index_is, lemma_last_index_none};
use crate::schema::TypeReference;
use crate::value::{
    Argument, Directive, Span, Value, arguments_are_wf, arguments_wf, directives_are_wf, directives_wf,
    value_is_wf, value_wf,
};

verus! {

#[derive(PartialEq, Eq, Structural, Clone, Copy)]
pub enum OperationType {
    Query,
    Mutation,
    Subscription,
}

pub struct VariableDefinition {
    pub variable: String,
    pub type_ref: TypeReference,
    pub default_value: Option<Value>,
    pub directives: Vec<Directive>,
}

/// A field selection. A field without a selection set has an empty `selection_set`.
pub struct Field {
    pub alias: Option<String>,
    pub name: String,
    pub arguments: Vec<Argument>,
    pub directives: Vec<Directive>,
    pub selection_set: Vec<Selection>,
    pub name_span: Span,
    /// The span of the selection set; for a field without one, the span of its name.
    pub selection_set_span: Span,
}

pub struct InlineFragment {
    pub type_condition: Option<String>,
    pub directives: Vec<Directive>,
    pub selection_set: Vec<Selection>,
    /// The span of the whole inline fragment.
    pub span: Span,
    pub selection_set_span: Span,
}

pub struct FragmentSpread {
    pub name: String,
    pub directives: Vec<Directive>,
    pub name_span: Span,
}

pub enum Selection {
    Field(Field),
    InlineFragment(InlineFragment),
    FragmentSpread(FragmentSpread),
}

pub struct OperationDefinition {
    pub operation_type: OperationType,
    pub name: Option<String>,
    pub variable_definitions: Vec<VariableDefinition>,
    pub directives: Vec<Directive>,
    pub selection_set: Vec<Selection>,
    /// The span of the operation's name, where it has one.
    pub name_span: Option<Span>,
    pub selection_set_span: Span,
}

pub struct FragmentDefinition {
    pub name: String,
    pub type_condition: String,
    pub directives: Vec<Directive>,
    pub selection_set: Vec<Selection>,
    pub name_span: Span,
    pub selection_set_span: Span,
}

pub struct ExecutableDocument {
    pub operation_definitions: Vec<OperationDefinition>,
    pub fragment_definitions: Vec<FragmentDefinition>,
}

/// The key a field is returned under: its alias, or else its name.
pub open spec fn spec_response_name(f: Field) -> Seq<char> {
    match f.alias {
        Some(a) => a@,
        None => f.name@,
    }
}

impl Field {
    pub fn response_name(&self) -> (r: &String)
        ensures
            r@ == spec_response_name(*self),
    {
        match &self.alias {
            Some(a) => a,
            None => &self.name,
        }
    }
}

/// Every value in the selection is well formed.
pub open spec fn selection_wf(s: Selection) -> bool
    decreases s,
{
    match s {
        Selection::Field(f) => {
            &&& arguments_wf(f.arguments@)
            &&& directives_wf(f.directives@)
            &&& forall|i: int|
                0 <= i < f.selection_set@.len() ==> selection_wf(#[trigger] f.selection_set@[i])
        },
        Selection::InlineFragment(i) => {
            &&& directives_wf(i.directives@)
            &&& forall|k: int|
                0 <= k < i.selection_set@.len() ==> selection_wf(#[trigger] i.selection_set@[k])
        },
        Selection::FragmentSpread(s) => directives_wf(s.directives@),
    }
}

pub open spec fn selections_wf(s: Seq<Selection>) -> bool {
    forall|i: int| 0 <= i < s.len() ==> selection_wf(#[trigger] s[i])
}

pub open spec fn variable_definition_wf(vd: VariableDefinition) -> bool {
    &&& (vd.default_value matches Some(v) ==> value_wf(v))
    &&& directives_wf(vd.directives@)
}

pub open spec fn operation_wf(op: OperationDefinition) -> bool {
    &&& forall|i: int|
        0 <= i < op.variable_definitions@.len() ==> variable_definition_wf(
            #[trigger] op.variable_definitions@[i],
        )
    &&& directives_wf(op.directives@)
    &&& selections_wf(op.selection_set@)
}

pub open spec fn fragment_wf(f: FragmentDefinition) -> bool {
    &&& directives_wf(f.directives@)
    &&& selections_wf(f.selection_set@)
}

impl ExecutableDocument {
    /// Every integer literal in the document is well formed.
    pub open spec fn wf(&self) -> bool {
        &&& forall|i: int|
            0 <= i < self.operation_definitions@.len() ==> operation_wf(
                #[trigger] self.operation_definitions@[i],
            )
        &&& forall|i: int|
            0 <= i < self.fragment_definitions@.len() ==> fragment_wf(
                #[trigger] self.fragment_definitions@[i],
            )
    }

    /// The fragment definition a spread of `name` refers to: the last one with that
    /// name, as an index built by inserting the definitions in order keeps it.
    pub open spec fn fragment_index(&self, name: Seq<char>) -> Option<int> {
        last_index(self.fragment_definitions@, |f: FragmentDefinition| f.name@ == name)
    }

    pub fn fragment_definition(&self, name: &String) -> (r: Option<usize>)
        ensures
            r matches Some(i) ==> self.fragment_index(name@) == Some(i as int) && i < self.fragment_definitions@.len(),
            r is None ==> self.fragment_index(name@) is None,
    {
        let mut i: usize = self.fragment_definitions.len();
        while i > 0
            invariant
                i <= self.fragment_definitions.len(),
                forall|j: int|
                    i <= j < self.fragment_definitions@.len() ==> !((|f: FragmentDefinition|
                        f.name@ == name@)(#[trigger] self.fragment_definitions@[j])),
            decreases i,
        {
            if self.fragment_definitions[i - 1].name == *name {
                proof {
                    lemma_last_index_is(
                        self.fragment_definitions@,
                        |f: FragmentDefinition| f.name@ == name@,
                        i - 1,
                    );
                }
                return Some(i - 1);
            }
            i -= 1;
        }
        proof {
            lemma_last_index_none(self.fragment_definitions@, |f: FragmentDefinition| f.name@ == name@);
        }
        None
    }
}

/// Whether every value in the selection is well formed.
pub fn selection_is_wf(s: &Selection) -> (r: bool)
    ensures
        r == selection_wf(*s),
    decreases *s,
{
    let (children, head_ok) = match s {
        Selection::Field(f) => {
            (&f.selection_set, arguments_are_wf(&f.arguments) && directives_are_wf(&f.directives))
        },
        Selection::InlineFragment(i) => (&i.selection_set, directives_are_wf(&i.directives)),
        Selection::FragmentSpread(fs) => {
            return directives_are_wf(&fs.directives);
        },
    };
    if !head_ok {
        return false;
    }
    assert forall|j: int| 0 <= j < children@.len() implies decreases_to!(*s => #[trigger] children@[j]) by {
        match s {
            Selection::Field(f) => {
                assert(decreases_to!(*s => *f));
                assert(decreases_to!(*f => f.selection_set));
                assert(decreases_to!(f.selection_set => f.selection_set@));
                assert(decreases_to!(f.selection_set@ => f.selection_set@[j]));
            },
            Selection::InlineFragment(i) => {
                assert(decreases_to!(*s => *i));
                assert(decreases_to!(*i => i.selection_set));
                assert(decreases_to!(i.selection_set => i.selection_set@));
                assert(decreases_to!(i.selection_set@ => i.selection_set@[j]));
            },
            Selection::FragmentSpread(_) => {},
        }
    }
    let mut k: usize = 0;
    while k < children.len()
        invariant
            k <= children.len(),
            selection_wf(*s) <==> (forall|j: int| 0 <= j < children@.len() ==> selection_wf(#[trigger] children@[j])),
            forall|j: int| 0 <= j < children@.len() ==> decreases_to!(*s => #[trigger] children@[j]),
            forall|j: int| 0 <= j < k ==> selection_wf(#[trigger] children@[j]),
        decreases children.len() - k,
    {
        if !selection_is_wf(&children[k]) {
            return false;
        }
        k += 1;
    }
    true
}

/// Whether every value in the selections is well formed.
pub fn selections_are_wf(s: &Vec<Selection>) -> (r: bool)
    ensures
        r == selections_wf(s@),
{
    let mut k: usize = 0;
    while k < s.len()
        invariant
            k <= s.len(),
            forall|j: int| 0 <= j < k ==> selection_wf(#[trigger] s@[j]),
        decreases s.len() - k,
    {
        if !selection_is_wf(&s[k]) {
            return false;
        }
        k += 1;
    }
    true
}

fn variable_definition_is_wf(vd: &VariableDefinition) -> (r: bool)
    ensures
        r == variable_definition_wf(*vd),
{
    let default_ok = match &vd.default_value {
        Some(v) => value_is_wf(v),
        None => true,
    };
    default_ok && directives_are_wf(&vd.directives)
}

fn operation_is_wf(op: &OperationDefinition) -> (r: bool)
    ensures
        r == operation_wf(*op),
{
    let vds = &op.variable_definitions;
    let mut k: usize = 0;
    while k < vds.len()
        invariant
            k <= vds.len(),
            vds@ == op.variable_definitions@,
            forall|j: int| 0 <= j < k ==> variable_definition_wf(#[trigger] vds@[j]),
        decreases vds.len() - k,
    {
        if !variable_definition_is_wf(&vds[k]) {
            return false;
        }
        k += 1;
    }
    directives_are_wf(&op.directives) && selections_are_wf(&op.selection_set)
}

impl ExecutableDocument {
    /// Whether every integer literal in the document is well formed.
    pub fn check_wf(&self) -> (r: bool)
        ensures
            r == self.wf(),
    {
        let ops = &self.operation_definitions;
        let mut k: usize = 0;
        while k < ops.len()
            invariant
                k <= ops.len(),
                ops@ == self.operation_definitions@,
                forall|j: int| 0 <= j < k ==> operation_wf(#[trigger] ops@[j]),
            decreases ops.len() - k,
        {
            if !operation_is_wf(&ops[k]) {
                return false;
            }
            k += 1;
        }
        let fds = &self.fragment_definitions;
        let mut k: usize = 0;
        while k < fds.len()
            invariant
                k <= fds.len(),
                ops@ == self.operation_definitions@,
                fds@ == self.fragment_definitions@,
                forall|j: int| 0 <= j < ops@.len() ==> operation_wf(#[trigger] ops@[j]),
                forall|j: int| 0 <= j < k ==> fragment_wf(#[trigger] fds@[j]),
            decreases fds.len() - k,
        {
            if !(directives_are_wf(&fds[k].directives) && selections_are_wf(&fds[k].selection_set)) {
                return false;
            }
            k += 1;
        }
        true
    }
}

} // verus!
