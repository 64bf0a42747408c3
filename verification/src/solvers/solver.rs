//! What every solving strategy offers.
use crate::algebra::{terms_view, Expr, Operation};
use crate::container::Container;
use vstd::prelude::*;

verus! {

/// One explanatory record of a solver: a label, and the expressions to show
/// under it, in order.
#[derive(Debug)]
pub struct Step {
    /// What the step shows.
    pub label: String,
    /// The expressions of the step; there may be none.
    pub sub_steps: Vec<Operation>,
}

/// The mathematical value of a [`Step`].
pub struct StepView {
    pub label: Seq<char>,
    pub sub_steps: Seq<Expr>,
}

impl View for Step {
    type V = StepView;

    open spec fn view(&self) -> StepView {
        StepView { label: self.label@, sub_steps: terms_view(self.sub_steps@) }
    }
}

/// The values of a list of steps.
pub open spec fn step_views(steps: Seq<Step>) -> Seq<StepView> {
    Seq::new(steps.len(), |i: int| steps[i]@)
}

/// A solving strategy.
///
/// A solver is made from the container of one analysis, which it takes over,
/// and lists what it finds as steps. Both can fail, with a description of what
/// stood in the way.
pub trait Solver: Sized {
    /// What holds of every solver that `new` has made.
    spec fn ready(&self) -> bool;

    /// Makes a solver for the circuit in the container. The solver builds the
    /// nodes of the container itself.
    fn new(container: Container) -> (r: Result<Self, String>)
        requires
            container.wf(),
        ensures
            r matches Ok(solver) ==> solver.ready(),
    ;

    /// The steps of the solution, in order.
    fn solve(&self) -> (r: Result<Vec<Step>, String>)
        requires
            self.ready(),
    ;
}

} // verus!
