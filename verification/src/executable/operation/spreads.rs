//! How the walk treats a fragment spread.
use vstd::prelude::*;
use crate::document::{FragmentSpread, Selection};
use crate::executable::operation::orchestrator::{Event, WalkContext};

verus! {

/// A fragment spread adds nothing to the walk where the fragment is being spread
/// already (which ends every cycle of spreads), where no fragment has its name, or
/// where its type condition names no type. Otherwise it adds the walk of the
/// fragment's selections, scoped to its type condition, included where the spread
/// is, and with the fragment marked as being spread. (`Orchestrator::visit_selection`,
/// which takes this step, leaves the fragments being spread as it found them.)
pub proof fn lemma_fragment_spread_events<'a, 'v>(
    ctx: WalkContext<'a, 'v>,
    spread: FragmentSpread,
    ty: int,
    included: bool,
    active: Seq<bool>,
)
    ensures
        ctx.selection_events(Selection::FragmentSpread(spread), ty, included, active) == match ctx.executable_document.fragment_index(
            spread.name@,
        ) {
            Some(k) => if 0 <= k < active.len() && !active[k] {
                match ctx.schema_definition.type_index(
                    ctx.executable_document.fragment_definitions@[k].type_condition@,
                ) {
                    Some(t) => ctx.selection_set_events(
                        ctx.executable_document.fragment_definitions@[k].selection_set@,
                        t,
                        ctx.field_included(included, spread.directives@),
                        active.update(k, true),
                    ),
                    None => Seq::<Event<'a>>::empty(),
                }
            } else {
                Seq::empty()
            },
            None => Seq::empty(),
        },
{
}

} // verus!
