use vstd::prelude::*;
use crate::scalar::Scalar;

verus! {

/// The activation a layer applies to its vector of weighted sums.
#[derive(Debug, Clone, Copy, PartialEq, Eq, Structural)]
pub enum ActivationFunction {
    /// The identity.
    Linear,
    /// `max(0, x)` on each entry.
    ReLU,
    /// `1 / (1 + e^-x)` on each entry.
    Sigmoid,
    /// `e^x_i / sum_j e^x_j` over the whole vector.
    Softmax,
}

impl Default for ActivationFunction {
    fn default() -> (r: Self)
        ensures
            r == ActivationFunction::Linear,
    {
        ActivationFunction::Linear
    }
}

/// `sum_j e^values_j`, accumulated from zero left to right.
pub open spec fn sum_exp<W: Scalar>(values: Seq<W>) -> W
    decreases values.len(),
{
    if values.len() == 0 {
        W::spec_zero()
    } else {
        sum_exp(values.drop_last()).spec_plus(values.last().spec_exp())
    }
}

/// `1 / (1 + e^-x)`.
pub open spec fn sigmoid<W: Scalar>(x: W) -> W {
    W::spec_one().spec_over(W::spec_one().spec_plus(x.spec_negate().spec_exp()))
}

/// The activation `function` of the whole vector `values`.
pub open spec fn activation_of<W: Scalar>(function: ActivationFunction, values: Seq<W>) -> Seq<W> {
    match function {
        ActivationFunction::Linear => values,
        ActivationFunction::ReLU => values.map_values(|x: W| W::spec_zero().spec_larger(x)),
        ActivationFunction::Sigmoid => values.map_values(|x: W| sigmoid(x)),
        ActivationFunction::Softmax => values.map_values(|x: W| x.spec_exp().spec_over(sum_exp(values))),
    }
}

/// Applies `f` to each entry of `values`, in order.
fn map_each<W: Scalar, F: Fn(W) -> W>(values: &Vec<W>, f: F) -> (r: Vec<W>)
    requires
        forall|w: W| f.requires((w,)),
    ensures
        r@.len() == values@.len(),
        forall|i: int| 0 <= i < values@.len() ==> f.ensures((values@[i],), #[trigger] r@[i]),
{
    let mut r: Vec<W> = Vec::with_capacity(values.len());
    let mut i: usize = 0;
    while i < values.len()
        invariant
            forall|w: W| f.requires((w,)),
            i <= values@.len(),
            r@.len() == i,
            forall|k: int| 0 <= k < i ==> f.ensures((values@[k],), #[trigger] r@[k]),
        decreases values@.len() - i,
    {
        r.push(f(values[i]));
        i = i + 1;
    }
    r
}

impl ActivationFunction {
    /// The activation of a whole vector of weighted sums. `Linear` returns
    /// the vector itself; the others map every entry, `Softmax` dividing
    /// `exp` of each by the sum of `exp` over the vector.
    pub fn apply<W: Scalar>(&self, outputs: &Vec<W>) -> (r: Vec<W>)
        ensures
            r@ == activation_of(*self, outputs@),
    {
        let r = match self {
            ActivationFunction::Linear => map_each(outputs, |o: W| -> (v: W)
                ensures
                    v == o,
                { o }),
            ActivationFunction::ReLU => map_each(outputs, |o: W| -> (v: W)
                ensures
                    v == W::spec_zero().spec_larger(o),
                { W::zero().larger(o) }),
            ActivationFunction::Sigmoid => map_each(outputs, |o: W| -> (v: W)
                ensures
                    v == sigmoid(o),
                { W::one().over(W::one().plus(o.negate().exp())) }),
            ActivationFunction::Softmax => {
                let mut partition = W::zero();
                let mut i: usize = 0;
                while i < outputs.len()
                    invariant
                        i <= outputs@.len(),
                        partition == sum_exp(outputs@.take(i as int)),
                    decreases outputs@.len() - i,
                {
                    proof {
                        assert(outputs@.take(i + 1).drop_last() =~= outputs@.take(i as int));
                    }
                    partition = partition.plus(outputs[i].exp());
                    i = i + 1;
                }
                proof {
                    assert(outputs@.take(outputs@.len() as int) =~= outputs@);
                }
                map_each(outputs, |o: W| -> (v: W)
                    ensures
                        v == o.spec_exp().spec_over(partition),
                    { o.exp().over(partition) })
            },
        };
        assert(r@ =~= activation_of(*self, outputs@));
        r
    }
}

} // verus!
