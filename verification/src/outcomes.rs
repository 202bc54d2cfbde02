//! What is left when the steps of a plan have run: the values that take the place of the results
//! of an operation, and the functions that were called.

use crate::plan::{Callee, PlanView, ReplacementOf, StepOf, StepView};
use crate::semantics::{Machine, Memory, Runtime};
use vstd::prelude::*;

verus! {

/// The values that take the place of the results of an operation.
pub open spec fn replacements(m: Machine, memory: Memory, plan: PlanView) -> Seq<Runtime> {
    let results = m.results(memory, plan.steps);
    match plan.replacement {
        ReplacementOf::Step(k) => seq![results[k as int]],
        ReplacementOf::Values(refs) => Seq::new(refs.len(), |i: int| m.get(results, refs[i])),
    }
}

/// A function that a step calls, with its arguments.
#[verifier::ext_equal]
pub struct CallView {
    pub callee: Callee,
    pub arguments: Seq<Runtime>,
}

/// The functions that the first `n` steps call, where all steps give `results`.
pub open spec fn calls(m: Machine, results: Seq<Runtime>, steps: Seq<StepView>, n: nat) -> Seq<
    CallView,
>
    decreases n,
{
    if n == 0 {
        Seq::empty()
    } else {
        let before = calls(m, results, steps, (n - 1) as nat);
        match steps[n - 1] {
            StepOf::Call { callee, arguments } => before.push(
                CallView {
                    callee,
                    arguments: Seq::new(arguments.len(), |i: int| m.get(results, arguments[i])),
                },
            ),
            _ => before,
        }
    }
}

} // verus!
