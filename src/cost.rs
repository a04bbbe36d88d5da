use vstd::prelude::*;
use crate::activation::{ActivationFunction, activation_of};
use crate::scalar::Scalar;

verus! {

/// The loss measured between a network's outputs and the one-hot targets.
#[derive(Debug, Clone, Copy, PartialEq, Eq, Structural)]
pub enum CostFunction {
    /// Mean of the squared differences.
    MSE,
    /// Cross-entropy of the softmax of the outputs against the targets.
    CCE,
}

impl Default for CostFunction {
    fn default() -> (r: Self)
        ensures
            r == CostFunction::MSE,
    {
        CostFunction::MSE
    }
}

/// `sum (t_i - o_i)^2` over the first `n` entries, accumulated from zero in
/// order.
pub open spec fn squared_error_sum<W: Scalar>(outputs: Seq<W>, targets: Seq<W>, n: int) -> W
    decreases n,
{
    if n <= 0 {
        W::spec_zero()
    } else {
        let d = targets[n - 1].spec_minus(outputs[n - 1]);
        squared_error_sum(outputs, targets, n - 1).spec_plus(d.spec_times(d))
    }
}

/// `sum t_i * ln(s_i)` over the first `n` entries, accumulated from zero in
/// order.
pub open spec fn log_likelihood_sum<W: Scalar>(soft: Seq<W>, targets: Seq<W>, n: int) -> W
    decreases n,
{
    if n <= 0 {
        W::spec_zero()
    } else {
        log_likelihood_sum(soft, targets, n - 1).spec_plus(targets[n - 1].spec_times(soft[n - 1].spec_ln()))
    }
}

/// The loss `function` between `outputs` and `targets`.
pub open spec fn cost_of<W: Scalar>(function: CostFunction, outputs: Seq<W>, targets: Seq<W>) -> W {
    match function {
        CostFunction::MSE => squared_error_sum(outputs, targets, outputs.len() as int).spec_over(
            W::spec_from_count(outputs.len() as usize),
        ),
        CostFunction::CCE => log_likelihood_sum(
            activation_of(ActivationFunction::Softmax, outputs),
            targets,
            outputs.len() as int,
        ).spec_negate(),
    }
}

impl CostFunction {
    /// The loss between `outputs` and `targets`, entry by entry in order:
    /// `MSE` is `sum (t - o)^2 / n`; `CCE` is `-sum t * ln(softmax(o))`, the
    /// outputs being passed through softmax first.
    pub fn apply<W: Scalar>(&self, outputs: &Vec<W>, targets: Vec<W>) -> (r: W)
        requires
            outputs@.len() == targets@.len(),
        ensures
            r == cost_of(*self, outputs@, targets@),
    {
        match self {
            CostFunction::CCE => {
                let soft = ActivationFunction::Softmax.apply(outputs);
                let mut total = W::zero();
                let mut i: usize = 0;
                while i < soft.len()
                    invariant
                        i <= soft@.len(),
                        soft@ == activation_of(ActivationFunction::Softmax, outputs@),
                        soft@.len() == targets@.len(),
                        total == log_likelihood_sum(soft@, targets@, i as int),
                    decreases soft@.len() - i,
                {
                    total = total.plus(targets[i].times(soft[i].ln()));
                    i = i + 1;
                }
                total.negate()
            },
            CostFunction::MSE => {
                let mut total = W::zero();
                let mut i: usize = 0;
                while i < outputs.len()
                    invariant
                        i <= outputs@.len(),
                        outputs@.len() == targets@.len(),
                        total == squared_error_sum(outputs@, targets@, i as int),
                    decreases outputs@.len() - i,
                {
                    let difference = targets[i].minus(outputs[i]);
                    total = total.plus(difference.times(difference));
                    i = i + 1;
                }
                total.over(W::from_count(outputs.len()))
            },
        }
    }
}

} // verus!
