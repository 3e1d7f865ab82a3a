//! The depth of an operation: the greatest number of included fields nested in one
//! another.
use vstd::prelude::*;
use crate::document::ExecutableDocument;
use crate::executable::operation::nesting::{
    balanced, depth_after, depth_change, lemma_depth_bounded, lemma_operation_events_balanced,
    max_depth,
};
use crate::executable::operation::orchestrator::{
    Event, OperationResolutionError, Orchestrator, spec_name_of, spec_resolution_error,
    spec_resolved_events,
};
use crate::executable::operation::analyzer::Analyzer;
use crate::executable::operation::depth::{lemma_operation_depth, spec_resolved_depth};
use crate::executable::operation::variable_values::VariableValues;
use crate::schema::SchemaDefinition;

verus! {

/// Tracks the depth of the field being visited and the greatest depth reached.
pub struct QueryDepth {
    pub current_depth: usize,
    pub max_depth: usize,
}

impl QueryDepth {
    pub fn new() -> (r: Self)
        ensures
            r.current_depth == 0,
            r.max_depth == 0,
    {
        QueryDepth { current_depth: 0, max_depth: 0 }
    }

    /// Entering an included field deepens the walk by one.
    pub fn visit_field(&mut self, included: bool)
        requires
            included ==> old(self).current_depth < usize::MAX,
        ensures
            final(self).current_depth == if included {
                old(self).current_depth + 1
            } else {
                old(self).current_depth as int
            },
            final(self).max_depth == if included && old(self).current_depth + 1 > old(self).max_depth {
                old(self).current_depth + 1
            } else {
                old(self).max_depth as int
            },
    {
        if included {
            self.current_depth += 1;
            if self.current_depth > self.max_depth {
                self.max_depth = self.current_depth;
            }
        }
    }

    /// Leaving an included field returns to the depth of its parent.
    pub fn leave_field(&mut self, included: bool)
        requires
            included ==> old(self).current_depth > 0,
        ensures
            final(self).current_depth == if included {
                old(self).current_depth - 1
            } else {
                old(self).current_depth as int
            },
            final(self).max_depth == old(self).max_depth,
    {
        if included {
            self.current_depth -= 1;
        }
    }

    /// The greatest depth reached over a balanced walk.
    pub fn analyze_events(events: &Vec<Event>) -> (r: usize)
        requires
            balanced(events@),
        ensures
            r == max_depth(events@),
    {
        let mut analyzer = QueryDepth::new();
        let mut i: usize = 0;
        while i < events.len()
            invariant
                i <= events.len(),
                balanced(events@),
                analyzer.current_depth == depth_after(events@.take(i as int)),
                analyzer.max_depth == max_depth(events@.take(i as int)),
            decreases events.len() - i,
        {
            let ghost prefix = events@.take(i as int);
            let ghost next = events@.take(i + 1);
            proof {
                assert(next.drop_last() =~= prefix);
                assert(next.last() == events@[i as int]);
                lemma_depth_bounded(prefix);
                assert(depth_after(events@.take(i + 1)) >= 0);
            }
            match &events[i] {
                Event::VisitField { included, .. } => analyzer.visit_field(*included),
                Event::LeaveField { included, .. } => analyzer.leave_field(*included),
                _ => {},
            }
            i += 1;
        }
        proof { assert(events@.take(i as int) =~= events@); }
        analyzer.into_output()
    }

    /// The depth of the chosen operation of the document.
    pub fn analyze<'a>(
        executable_document: &'a ExecutableDocument,
        schema_definition: &'a SchemaDefinition,
        operation_name: Option<&String>,
        variable_values: &'a VariableValues,
    ) -> (r: Result<usize, OperationResolutionError>)
        requires
            schema_definition.wf(),
        ensures
            match r {
                Ok(d) => spec_resolved_events(
                    executable_document,
                    schema_definition,
                    spec_name_of(operation_name),
                    variable_values,
                ) matches Some(events) && d == max_depth(events) && spec_resolved_depth(
                    executable_document,
                    schema_definition,
                    spec_name_of(operation_name),
                    variable_values,
                ) == Some(d as int),
                Err(e) => spec_resolved_events(
                    executable_document,
                    schema_definition,
                    spec_name_of(operation_name),
                    variable_values,
                ) is None && spec_resolution_error(operation_name, e),
            },
    {
        let events = match Orchestrator::analyze(
            executable_document,
            schema_definition,
            operation_name,
            variable_values,
        ) {
            Ok(events) => events,
            Err(e) => return Err(e),
        };
        proof {
            let i = crate::executable::operation::orchestrator::spec_operation_position(
                *executable_document,
                spec_name_of(operation_name),
            ).unwrap();
            let ctx = crate::executable::operation::orchestrator::WalkContext {
                schema_definition,
                executable_document,
                operation_definition: &executable_document.operation_definitions@[i],
                variable_values,
            };
            lemma_operation_events_balanced(ctx);
            lemma_operation_depth(ctx);
        }
        Ok(Self::analyze_events(&events))
    }
}

impl Analyzer for QueryDepth {
    type Output = usize;

    open spec fn ready(&self) -> bool {
        true
    }

    fn into_output(self) -> (r: usize)
        ensures
            r == self.max_depth,
    {
        self.max_depth
    }
}

} // verus!
