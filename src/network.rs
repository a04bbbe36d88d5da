use vstd::prelude::*;
use core::marker::PhantomData;
use crate::activation::{ActivationFunction, activation_of};
use crate::cost::{CostFunction, cost_of};
use crate::label::{Label, LABEL_COUNT, bits_of, label_of_bits};
use crate::scalar::Scalar;
use crate::training::{Datapoint, Dataset, targets_of};

verus! {

/// One unit of a layer: a weight per input, a bias, and the weighted sum it
/// last computed.
pub struct Neuron<W> {
    pub weights: Vec<W>,
    pub bias: W,
    pub output: W,
}

/// An ordered group of neurons that read the same input and share one
/// activation.
pub struct Layer<W> {
    pub neurons: Vec<Neuron<W>>,
    pub function: ActivationFunction,
}

/// Marker of a network whose topology is still being built.
pub struct Construction;

/// Marker of a network whose topology is frozen and that can be evaluated.
pub struct Ready;

/// A feedforward network over scalars of type `W`, in the state `Status`.
///
/// Layers are added only while the network is under construction; once built,
/// the number of layers and the shape of each stay fixed.
pub struct Network<W, Status = Construction> {
    input_size: usize,
    layers: Vec<Layer<W>>,
    cost_function: CostFunction,
    marker: PhantomData<Status>,
}

/// Every neuron of `layer` reads `width` inputs.
pub open spec fn reads_width<W>(layer: Layer<W>, width: nat) -> bool {
    forall|j: int| 0 <= j < layer.neurons@.len() ==> (#[trigger] layer.neurons@[j]).weights@.len() == width
}

/// Width of the vector that layer `i` of `layers` reads, in a network with
/// `input_size` inputs: the input itself for the first layer, the previous
/// layer's output for the others.
pub open spec fn input_width_at<W>(input_size: nat, layers: Seq<Layer<W>>, i: int) -> nat {
    if i == 0 {
        input_size
    } else {
        layers[i - 1].neurons@.len()
    }
}

/// Width of the vector that a network with `input_size` inputs and the given
/// layers produces.
pub open spec fn output_width<W>(input_size: nat, layers: Seq<Layer<W>>) -> nat {
    if layers.len() == 0 {
        input_size
    } else {
        layers.last().neurons@.len()
    }
}

/// Each layer reads exactly the width that the one before it produces, and the
/// first reads the network's input.
pub open spec fn chained<W>(input_size: nat, layers: Seq<Layer<W>>) -> bool {
    forall|i: int| 0 <= i < layers.len() ==> reads_width(#[trigger] layers[i], input_width_at(input_size, layers, i))
}

/// `after` has the weights and the bias of `before`.
pub open spec fn neuron_params_kept<W>(before: Neuron<W>, after: Neuron<W>) -> bool {
    &&& after.weights == before.weights
    &&& after.bias == before.bias
}

/// `after` has the activation, the neurons and the parameters of `before`;
/// only recorded outputs may differ.
pub open spec fn layer_params_kept<W>(before: Layer<W>, after: Layer<W>) -> bool {
    &&& after.function == before.function
    &&& after.neurons@.len() == before.neurons@.len()
    &&& forall|j: int| 0 <= j < before.neurons@.len() ==> neuron_params_kept(before.neurons@[j], #[trigger] after.neurons@[j])
}

/// Layer by layer, `after` keeps the topology and parameters of `before`.
pub open spec fn layers_params_kept<W>(before: Seq<Layer<W>>, after: Seq<Layer<W>>) -> bool {
    &&& after.len() == before.len()
    &&& forall|i: int| 0 <= i < before.len() ==> layer_params_kept(before[i], #[trigger] after[i])
}

/// `after` is `before` with `f` applied to every weight and to the bias; the
/// recorded output is kept.
pub open spec fn neuron_mapped<W, F: Fn(W) -> W>(before: Neuron<W>, after: Neuron<W>, f: F) -> bool {
    &&& after.weights@.len() == before.weights@.len()
    &&& forall|i: int| 0 <= i < before.weights@.len() ==> f.ensures((before.weights@[i],), #[trigger] after.weights@[i])
    &&& f.ensures((before.bias,), after.bias)
    &&& after.output == before.output
}

/// `after` is `before` with `f` applied to every parameter of every neuron.
pub open spec fn layer_mapped<W, F: Fn(W) -> W>(before: Layer<W>, after: Layer<W>, f: F) -> bool {
    &&& after.function == before.function
    &&& after.neurons@.len() == before.neurons@.len()
    &&& forall|j: int| 0 <= j < before.neurons@.len() ==> neuron_mapped(before.neurons@[j], #[trigger] after.neurons@[j], f)
}

/// `after` holds the layers of `before`, each with `f` applied to every
/// parameter.
pub open spec fn layers_mapped<W, F: Fn(W) -> W>(before: Seq<Layer<W>>, after: Seq<Layer<W>>, f: F) -> bool {
    &&& after.len() == before.len()
    &&& forall|i: int| 0 <= i < before.len() ==> layer_mapped(before[i], #[trigger] after[i], f)
}

/// What rebuilding a ready network from parts yields: the parts themselves
/// when the layers chain from `input_size`, nothing otherwise.
pub open spec fn rebuilt<W>(input_size: nat, layers: Seq<Layer<W>>, cost: CostFunction) -> Option<
    (nat, Seq<Layer<W>>, CostFunction),
> {
    if chained(input_size, layers) {
        Some((input_size, layers, cost))
    } else {
        None
    }
}

/// The point of `[-1, 1)` that a draw `u` from `[0, 1)` gives: `2u - 1`.
pub open spec fn unit_draw<W: Scalar>(u: W) -> W {
    u.spec_times(W::spec_one().spec_plus(W::spec_one())).spec_minus(W::spec_one())
}

/// `d` is `2u - 1` for some draw `u`.
pub open spec fn is_unit_draw<W: Scalar>(d: W) -> bool {
    exists|u: W| d == #[trigger] unit_draw(u)
}

/// `after` is `before` plus `alpha` times some point of `[-1, 1)` drawn as
/// `unit_draw` gives it.
pub open spec fn perturbed<W: Scalar>(before: W, after: W, alpha: W) -> bool {
    exists|u: W| after == #[trigger] before.spec_plus(unit_draw(u).spec_times(alpha))
}

/// `sum weights_i * inputs_i` over the first `n` entries, accumulated from
/// zero in order.
pub open spec fn dot_prefix<W: Scalar>(weights: Seq<W>, inputs: Seq<W>, n: int) -> W
    decreases n,
{
    if n <= 0 {
        W::spec_zero()
    } else {
        dot_prefix(weights, inputs, n - 1).spec_plus(weights[n - 1].spec_times(inputs[n - 1]))
    }
}

/// The weighted sum of `inputs` by `neuron`: the in-order dot product plus
/// the bias.
pub open spec fn neuron_sum<W: Scalar>(neuron: Neuron<W>, inputs: Seq<W>) -> W {
    dot_prefix(neuron.weights@, inputs, neuron.weights@.len() as int).spec_plus(neuron.bias)
}

/// The weighted sum of `inputs` by each neuron of `layer`, in order.
pub open spec fn layer_sums<W: Scalar>(layer: Layer<W>, inputs: Seq<W>) -> Seq<W> {
    Seq::new(layer.neurons@.len(), |j: int| neuron_sum(layer.neurons@[j], inputs))
}

/// What `layer` produces from `inputs`: the activation of its weighted sums.
pub open spec fn layer_output<W: Scalar>(layer: Layer<W>, inputs: Seq<W>) -> Seq<W> {
    activation_of(layer.function, layer_sums(layer, inputs))
}

/// `inputs` forwarded through the first `k` of `layers`, in order.
pub open spec fn forward_fold<W: Scalar>(layers: Seq<Layer<W>>, inputs: Seq<W>, k: int) -> Seq<W>
    decreases k,
{
    if k <= 0 {
        inputs
    } else {
        layer_output(layers[k - 1], forward_fold(layers, inputs, k - 1))
    }
}

/// The output of a network with the given layers on `inputs`.
pub open spec fn network_output<W: Scalar>(layers: Seq<Layer<W>>, inputs: Seq<W>) -> Seq<W> {
    forward_fold(layers, inputs, layers.len() as int)
}

/// The sum, accumulated from zero in order, of the cost of the first `n`
/// datapoints' outputs against their targets.
pub open spec fn cost_total<W: Scalar>(
    layers: Seq<Layer<W>>,
    function: CostFunction,
    datapoints: Seq<Datapoint<W>>,
    n: int,
) -> W
    decreases n,
{
    if n <= 0 {
        W::spec_zero()
    } else {
        let d = datapoints[n - 1];
        cost_total(layers, function, datapoints, n - 1).spec_plus(
            cost_of(function, network_output(layers, d.spec_inputs()), targets_of::<W>(d.spec_label())),
        )
    }
}

/// `after` is `before` with every weight and the bias perturbed by `alpha`;
/// the recorded output is kept.
pub open spec fn neuron_perturbed<W: Scalar>(before: Neuron<W>, after: Neuron<W>, alpha: W) -> bool {
    &&& after.weights@.len() == before.weights@.len()
    &&& forall|i: int| 0 <= i < before.weights@.len() ==> perturbed(before.weights@[i], #[trigger] after.weights@[i], alpha)
    &&& perturbed(before.bias, after.bias, alpha)
    &&& after.output == before.output
}

/// `after` is `before` with every neuron perturbed by `alpha`.
pub open spec fn layer_perturbed<W: Scalar>(before: Layer<W>, after: Layer<W>, alpha: W) -> bool {
    &&& after.function == before.function
    &&& after.neurons@.len() == before.neurons@.len()
    &&& forall|j: int| 0 <= j < before.neurons@.len() ==> neuron_perturbed(before.neurons@[j], #[trigger] after.neurons@[j], alpha)
}

proof fn lemma_mapped_perturbed<W: Scalar, F: Fn(W) -> W>(before: Neuron<W>, after: Neuron<W>, f: F, alpha: W)
    requires
        neuron_mapped(before, after, f),
        forall|w: W, v: W| f.ensures((w,), v) ==> perturbed(w, v, alpha),
    ensures
        neuron_perturbed(before, after, alpha),
{
    assert forall|i: int| 0 <= i < before.weights@.len() implies perturbed(before.weights@[i], #[trigger] after.weights@[i], alpha) by {
        assert(f.ensures((before.weights@[i],), after.weights@[i]));
    }
}

proof fn lemma_layer_mapped_perturbed<W: Scalar, F: Fn(W) -> W>(before: Layer<W>, after: Layer<W>, f: F, alpha: W)
    requires
        layer_mapped(before, after, f),
        forall|w: W, v: W| f.ensures((w,), v) ==> perturbed(w, v, alpha),
    ensures
        layer_perturbed(before, after, alpha),
{
    assert forall|j: int| 0 <= j < before.neurons@.len() implies neuron_perturbed(before.neurons@[j], #[trigger] after.neurons@[j], alpha) by {
        lemma_mapped_perturbed(before.neurons@[j], after.neurons@[j], f, alpha);
    }
}

proof fn lemma_kept_layer_sums<W: Scalar>(before: Layer<W>, after: Layer<W>, inputs: Seq<W>)
    requires
        layer_params_kept(before, after),
    ensures
        layer_sums(after, inputs) == layer_sums(before, inputs),
        layer_output(after, inputs) == layer_output(before, inputs),
{
    assert forall|j: int| 0 <= j < before.neurons@.len() implies #[trigger] layer_sums(after, inputs)[j] == layer_sums(before, inputs)[j] by {
        assert(neuron_params_kept(before.neurons@[j], after.neurons@[j]));
    }
    assert(layer_sums(after, inputs) =~= layer_sums(before, inputs));
}

proof fn lemma_kept_forward_fold<W: Scalar>(before: Seq<Layer<W>>, after: Seq<Layer<W>>, inputs: Seq<W>, k: int)
    requires
        layers_params_kept(before, after),
        k <= before.len(),
    ensures
        forward_fold(after, inputs, k) == forward_fold(before, inputs, k),
    decreases k,
{
    if k > 0 {
        lemma_kept_forward_fold(before, after, inputs, k - 1);
        lemma_kept_layer_sums(before[k - 1], after[k - 1], forward_fold(before, inputs, k - 1));
    }
}

/// A copy of `v`.
fn copy_of<W: Copy>(v: &Vec<W>) -> (r: Vec<W>)
    ensures
        r@ == v@,
{
    let mut r: Vec<W> = Vec::with_capacity(v.len());
    let mut i: usize = 0;
    while i < v.len()
        invariant
            i <= v@.len(),
            r@ == v@.take(i as int),
        decreases v@.len() - i,
    {
        r.push(v[i]);
        i = i + 1;
        assert(r@ =~= v@.take(i as int));
    }
    assert(r@ =~= v@);
    r
}

impl<W: Scalar> Neuron<W> {
    /// A draw from the uniform distribution on `[-1, 1)`.
    pub fn random() -> (r: W)
        ensures
            is_unit_draw(r),
    {
        let u = W::random();
        let r = u.times(W::one().plus(W::one())).minus(W::one());
        assert(r == unit_draw(u));
        r
    }

    /// A neuron reading `size` inputs, with every weight and the bias drawn
    /// at random from `[-1, 1)`, and a zero output.
    pub fn new(size: usize) -> (r: Neuron<W>)
        ensures
            r.weights@.len() == size,
            forall|i: int| 0 <= i < size ==> is_unit_draw(#[trigger] r.weights@[i]),
            is_unit_draw(r.bias),
            r.output == W::spec_zero(),
    {
        let mut weights: Vec<W> = Vec::with_capacity(size);
        let mut i: usize = 0;
        while i < size
            invariant
                i <= size,
                weights@.len() == i,
                forall|k: int| 0 <= k < i ==> is_unit_draw(#[trigger] weights@[k]),
            decreases size - i,
        {
            weights.push(Self::random());
            i = i + 1;
        }
        Neuron { weights, bias: Self::random(), output: W::zero() }
    }

    /// `sum weight_i * input_i`, accumulated from zero in order, plus the
    /// bias; it is recorded as the neuron's output.
    pub fn weighted_sum(&mut self, inputs: &Vec<W>) -> (r: W)
        requires
            inputs@.len() == old(self).weights@.len(),
        ensures
            final(self).weights == old(self).weights,
            final(self).bias == old(self).bias,
            final(self).output == r,
            r == neuron_sum(*old(self), inputs@),
    {
        let mut total = W::zero();
        let mut i: usize = 0;
        while i < inputs.len()
            invariant
                i <= inputs@.len(),
                inputs@.len() == self.weights@.len(),
                total == dot_prefix(self.weights@, inputs@, i as int),
            decreases inputs@.len() - i,
        {
            total = total.plus(self.weights[i].times(inputs[i]));
            i = i + 1;
        }
        self.output = total.plus(self.bias);
        self.output
    }

    /// Applies `f` to every weight and to the bias, in place.
    pub fn map_params<F: Fn(W) -> W>(&mut self, f: &F)
        requires
            forall|w: W| f.requires((w,)),
        ensures
            neuron_mapped(*old(self), *final(self), *f),
    {
        let ghost before = *self;
        let mut i: usize = 0;
        let n = self.weights.len();
        while i < n
            invariant
                n == before.weights@.len(),
                forall|w: W| f.requires((w,)),
                i <= n,
                self.weights@.len() == n,
                self.bias == before.bias,
                self.output == before.output,
                forall|k: int| 0 <= k < i ==> f.ensures((before.weights@[k],), #[trigger] self.weights@[k]),
                forall|k: int| i <= k < n ==> #[trigger] self.weights@[k] == before.weights@[k],
            decreases n - i,
        {
            let w = f(self.weights[i]);
            self.weights.set(i, w);
            i = i + 1;
        }
        self.bias = f(self.bias);
    }
}

impl<W> Layer<W> {
    /// The number of neurons: the width of the layer's output.
    pub fn get_size(&self) -> (r: usize)
        ensures
            r == self.neurons@.len(),
    {
        self.neurons.len()
    }
}

impl<W: Scalar> Layer<W> {
    /// A layer of `size` freshly drawn neurons, each reading `input_size`
    /// inputs.
    pub fn new(input_size: usize, size: usize, function: ActivationFunction) -> (r: Layer<W>)
        ensures
            r.function == function,
            r.neurons@.len() == size,
            reads_width(r, input_size as nat),
            forall|j: int| 0 <= j < size ==> {
                &&& (forall|i: int| 0 <= i < input_size ==> is_unit_draw(#[trigger] r.neurons@[j].weights@[i]))
                &&& is_unit_draw((#[trigger] r.neurons@[j]).bias)
                &&& r.neurons@[j].output == W::spec_zero()
            },
    {
        let mut neurons: Vec<Neuron<W>> = Vec::with_capacity(size);
        let mut j: usize = 0;
        while j < size
            invariant
                j <= size,
                neurons@.len() == j,
                forall|k: int| 0 <= k < j ==> (#[trigger] neurons@[k]).weights@.len() == input_size,
                forall|k: int| 0 <= k < j ==> {
                    &&& (forall|i: int| 0 <= i < input_size ==> is_unit_draw(#[trigger] neurons@[k].weights@[i]))
                    &&& is_unit_draw((#[trigger] neurons@[k]).bias)
                    &&& neurons@[k].output == W::spec_zero()
                },
            decreases size - j,
        {
            neurons.push(Neuron::new(input_size));
            j = j + 1;
        }
        Layer { neurons, function }
    }

    /// The weighted sum that each neuron last recorded, in neuron order.
    pub fn outputs(&self) -> (r: Vec<W>)
        ensures
            r@.len() == self.neurons@.len(),
            forall|j: int| 0 <= j < r@.len() ==> #[trigger] r@[j] == self.neurons@[j].output,
    {
        let mut r: Vec<W> = Vec::with_capacity(self.neurons.len());
        let mut j: usize = 0;
        while j < self.neurons.len()
            invariant
                j <= self.neurons@.len(),
                r@.len() == j,
                forall|k: int| 0 <= k < j ==> #[trigger] r@[k] == self.neurons@[k].output,
            decreases self.neurons@.len() - j,
        {
            r.push(self.neurons[j].output);
            j = j + 1;
        }
        r
    }

    /// Each neuron's weighted sum of `inputs`, recorded as its output, then
    /// the layer's activation of the vector of those sums.
    pub fn forward(&mut self, inputs: &Vec<W>) -> (r: Vec<W>)
        requires
            reads_width(*old(self), inputs@.len()),
        ensures
            r@ == layer_output(*old(self), inputs@),
            layer_params_kept(*old(self), *final(self)),
            forall|j: int| 0 <= j < old(self).neurons@.len() ==> (#[trigger] final(self).neurons@[j]).output
                == layer_sums(*old(self), inputs@)[j],
    {
        let ghost before = *self;
        let mut sums: Vec<W> = Vec::with_capacity(self.neurons.len());
        let mut j: usize = 0;
        while j < self.neurons.len()
            invariant
                reads_width(before, inputs@.len()),
                self.function == before.function,
                self.neurons@.len() == before.neurons@.len(),
                j <= self.neurons@.len(),
                sums@ == layer_sums(before, inputs@).take(j as int),
                forall|k: int| 0 <= k < j ==> (#[trigger] self.neurons@[k]).output == layer_sums(before, inputs@)[k],
                forall|k: int| 0 <= k < self.neurons@.len() ==> neuron_params_kept(before.neurons@[k], #[trigger] self.neurons@[k]),
            decreases self.neurons@.len() - j,
        {
            let ghost current = self.neurons@;
            let mut neuron = self.neurons.remove(j);
            proof {
                assert(neuron == current[j as int]);
                assert(neuron_params_kept(before.neurons@[j as int], neuron));
            }
            let sum = neuron.weighted_sum(inputs);
            self.neurons.insert(j, neuron);
            proof {
                assert forall|k: int| 0 <= k < self.neurons@.len() implies neuron_params_kept(
                    before.neurons@[k],
                    #[trigger] self.neurons@[k],
                ) by {
                    if k != j {
                        assert(self.neurons@[k] == current[k]);
                    }
                }
                assert forall|k: int| 0 <= k < j + 1 implies (#[trigger] self.neurons@[k]).output == layer_sums(
                    before,
                    inputs@,
                )[k] by {
                    if k != j {
                        assert(self.neurons@[k] == current[k]);
                    }
                }
                assert(sums@.push(sum) =~= layer_sums(before, inputs@).take(j + 1));
            }
            sums.push(sum);
            j = j + 1;
        }
        proof {
            assert(sums@ =~= layer_sums(before, inputs@));
        }
        self.function.apply(&sums)
    }

    /// Applies `f` to every parameter of every neuron, in place.
    pub fn map_params<F: Fn(W) -> W>(&mut self, f: &F)
        requires
            forall|w: W| f.requires((w,)),
        ensures
            layer_mapped(*old(self), *final(self), *f),
    {
        let ghost before = *self;
        let mut j: usize = 0;
        while j < self.neurons.len()
            invariant
                forall|w: W| f.requires((w,)),
                self.function == before.function,
                self.neurons@.len() == before.neurons@.len(),
                j <= self.neurons@.len(),
                forall|k: int| 0 <= k < j ==> neuron_mapped(before.neurons@[k], #[trigger] self.neurons@[k], *f),
                forall|k: int| j <= k < self.neurons@.len() ==> #[trigger] self.neurons@[k] == before.neurons@[k],
            decreases self.neurons@.len() - j,
        {
            let mut neuron = self.neurons.remove(j);
            neuron.map_params(f);
            self.neurons.insert(j, neuron);
            j = j + 1;
        }
    }
}

impl<W, Status> Network<W, Status> {
    /// Width of the input vector.
    pub closed spec fn spec_input_size(&self) -> nat {
        self.input_size as nat
    }

    /// The layers, first to last.
    pub closed spec fn spec_layers(&self) -> Seq<Layer<W>> {
        self.layers@
    }

    /// The cost against which outputs are measured.
    pub closed spec fn spec_cost(&self) -> CostFunction {
        self.cost_function
    }

    /// Each layer reads what the one before it produces, the first the input.
    pub open spec fn wf(&self) -> bool {
        chained(self.spec_input_size(), self.spec_layers())
    }

    /// Width of the output vector: the size of the last layer, or the input
    /// width while there is no layer.
    pub fn output_size(&self) -> (r: usize)
        ensures
            r == output_width(self.spec_input_size(), self.spec_layers()),
    {
        let n = self.layers.len();
        if n == 0 {
            self.input_size
        } else {
            self.layers[n - 1].get_size()
        }
    }

    /// Width of the input vector.
    pub fn input_size(&self) -> (r: usize)
        ensures
            r == self.spec_input_size(),
    {
        self.input_size
    }

    /// The layers, first to last.
    pub fn layers(&self) -> (r: &Vec<Layer<W>>)
        ensures
            r@ == self.spec_layers(),
    {
        &self.layers
    }

    /// The cost against which outputs are measured.
    pub fn cost_function(&self) -> (r: CostFunction)
        ensures
            r == self.spec_cost(),
    {
        self.cost_function
    }
}

impl<W: Scalar> Network<W, Construction> {
    /// A network under construction that reads `input_size` inputs, with no
    /// layer yet and the default cost.
    pub fn new(input_size: usize) -> (r: Self)
        ensures
            r.wf(),
            r.spec_input_size() == input_size,
            r.spec_layers() == Seq::<Layer<W>>::empty(),
            r.spec_cost() == CostFunction::MSE,
    {
        Network { input_size, layers: Vec::new(), cost_function: CostFunction::MSE, marker: PhantomData }
    }

    /// Appends a layer of `size` freshly drawn neurons with activation
    /// `function`, reading the current output width.
    pub fn add_layer(self, size: usize, function: ActivationFunction) -> (r: Self)
        requires
            self.wf(),
        ensures
            r.wf(),
            r.spec_input_size() == self.spec_input_size(),
            r.spec_cost() == self.spec_cost(),
            r.spec_layers().len() == self.spec_layers().len() + 1,
            r.spec_layers().drop_last() == self.spec_layers(),
            r.spec_layers().last().function == function,
            r.spec_layers().last().neurons@.len() == size,
            reads_width(r.spec_layers().last(), output_width(self.spec_input_size(), self.spec_layers())),
            output_width(r.spec_input_size(), r.spec_layers()) == size,
    {
        let width = self.output_size();
        let layer = Layer::new(width, size, function);
        let mut network = self;
        let ghost before = network.layers@;
        network.layers.push(layer);
        proof {
            let layers = network.layers@;
            assert(layers.drop_last() =~= before);
            assert forall|i: int| 0 <= i < layers.len() implies reads_width(
                #[trigger] layers[i],
                input_width_at(network.input_size as nat, layers, i),
            ) by {
                if i < before.len() {
                    assert(layers[i] == before[i]);
                    assert(input_width_at(network.input_size as nat, layers, i) == input_width_at(
                        network.input_size as nat,
                        before,
                        i,
                    ));
                }
            }
        }
        network
    }

    /// Freezes the topology and fixes the cost: the network becomes ready to
    /// evaluate.
    pub fn build(self, cost_function: CostFunction) -> (r: Network<W, Ready>)
        requires
            self.wf(),
        ensures
            r.wf(),
            r.spec_input_size() == self.spec_input_size(),
            r.spec_layers() == self.spec_layers(),
            r.spec_cost() == cost_function,
    {
        Network { input_size: self.input_size, layers: self.layers, cost_function, marker: PhantomData }
    }
}

proof fn lemma_params_kept_output_width<W>(input_size: nat, before: Seq<Layer<W>>, after: Seq<Layer<W>>)
    requires
        layers_params_kept(before, after),
    ensures
        output_width(input_size, after) == output_width(input_size, before),
{
    if before.len() > 0 {
        assert(layer_params_kept(before.last(), after.last()));
    }
}

proof fn lemma_params_kept_trans<W>(a: Seq<Layer<W>>, b: Seq<Layer<W>>, c: Seq<Layer<W>>)
    requires
        layers_params_kept(a, b),
        layers_params_kept(b, c),
    ensures
        layers_params_kept(a, c),
{
    assert forall|i: int| 0 <= i < a.len() implies layer_params_kept(a[i], #[trigger] c[i]) by {
        assert(layer_params_kept(a[i], b[i]));
        assert(layer_params_kept(b[i], c[i]));
        assert forall|j: int| 0 <= j < a[i].neurons@.len() implies neuron_params_kept(
            a[i].neurons@[j],
            #[trigger] c[i].neurons@[j],
        ) by {
            assert(neuron_params_kept(a[i].neurons@[j], b[i].neurons@[j]));
            assert(neuron_params_kept(b[i].neurons@[j], c[i].neurons@[j]));
        }
    }
}

/// Layers with the same number of neurons, each reading the same width, chain
/// alike.
proof fn lemma_same_shape_chained<W>(input_size: nat, before: Seq<Layer<W>>, after: Seq<Layer<W>>)
    requires
        chained(input_size, before),
        after.len() == before.len(),
        forall|i: int| 0 <= i < before.len() ==> (#[trigger] after[i]).neurons@.len() == before[i].neurons@.len(),
        forall|i: int, j: int|
            0 <= i < before.len() && 0 <= j < before[i].neurons@.len() ==> (#[trigger] after[i].neurons@[j]).weights@.len()
                == before[i].neurons@[j].weights@.len(),
    ensures
        chained(input_size, after),
{
    assert forall|i: int| 0 <= i < after.len() implies reads_width(
        #[trigger] after[i],
        input_width_at(input_size, after, i),
    ) by {
        assert(reads_width(before[i], input_width_at(input_size, before, i)));
        assert forall|j: int| 0 <= j < after[i].neurons@.len() implies (#[trigger] after[i].neurons@[j]).weights@.len()
            == input_width_at(input_size, after, i) by {
            assert(before[i].neurons@[j].weights@.len() == input_width_at(input_size, before, i));
        }
    }
}

impl<W: Scalar> Network<W, Ready> {
    /// Forwards the datapoint's inputs through every layer in order, each
    /// neuron recording its weighted sum, and labels the final output vector.
    pub fn run(&mut self, datapoint: &Datapoint<W>) -> (r: (Label, Vec<W>))
        requires
            old(self).wf(),
            datapoint.spec_inputs().len() == old(self).spec_input_size(),
            output_width(old(self).spec_input_size(), old(self).spec_layers()) == LABEL_COUNT,
        ensures
            final(self).wf(),
            final(self).spec_input_size() == old(self).spec_input_size(),
            final(self).spec_cost() == old(self).spec_cost(),
            layers_params_kept(old(self).spec_layers(), final(self).spec_layers()),
            r.1@.len() == LABEL_COUNT,
            r.1@ == network_output(old(self).spec_layers(), datapoint.spec_inputs()),
            r.0 == label_of_bits(bits_of(r.1@)),
            forall|i: int, j: int|
                0 <= i < old(self).spec_layers().len() && 0 <= j < old(self).spec_layers()[i].neurons@.len()
                    ==> (#[trigger] final(self).spec_layers()[i].neurons@[j]).output == layer_sums(
                    old(self).spec_layers()[i],
                    forward_fold(old(self).spec_layers(), datapoint.spec_inputs(), i),
                )[j],
    {
        let ghost before = self.layers@;
        let ghost input_size = self.input_size as nat;
        let ghost x = datapoint.spec_inputs();
        let mut inputs = copy_of(datapoint.inputs());
        proof {
            assert(before.take(0) =~= Seq::<Layer<W>>::empty());
        }
        let mut i: usize = 0;
        while i < self.layers.len()
            invariant
                before == old(self).layers@,
                input_size == old(self).input_size,
                self.input_size == old(self).input_size,
                self.cost_function == old(self).cost_function,
                chained(input_size, before),
                layers_params_kept(before, self.layers@),
                i <= before.len(),
                inputs@.len() == output_width(input_size, before.take(i as int)),
                inputs@ == forward_fold(before, x, i as int),
                forall|k: int, j: int|
                    0 <= k < i && 0 <= j < before[k].neurons@.len() ==> (#[trigger] self.layers@[k].neurons@[j]).output
                        == layer_sums(before[k], forward_fold(before, x, k))[j],
            decreases before.len() - i,
        {
            let ghost current = self.layers@;
            let mut layer = self.layers.remove(i);
            proof {
                assert(layer == current[i as int]);
                assert(layer_params_kept(before[i as int], layer));
                assert(reads_width(before[i as int], input_width_at(input_size, before, i as int)));
                assert forall|j: int| 0 <= j < layer.neurons@.len() implies (#[trigger] layer.neurons@[j]).weights@.len()
                    == inputs@.len() by {
                    assert(neuron_params_kept(before[i as int].neurons@[j], layer.neurons@[j]));
                    assert(before[i as int].neurons@[j].weights@.len() == input_width_at(input_size, before, i as int));
                }
            }
            let ghost taken = layer;
            let ghost fed = inputs@;
            inputs = layer.forward(&inputs);
            self.layers.insert(i, layer);
            proof {
                let after = self.layers@;
                lemma_kept_layer_sums(before[i as int], taken, fed);
                assert forall|k: int, j: int|
                    0 <= k < i + 1 && 0 <= j < before[k].neurons@.len() implies (#[trigger] after[k].neurons@[j]).output
                        == layer_sums(before[k], forward_fold(before, x, k))[j] by {
                    if k < i {
                        assert(after[k] == current[k]);
                    } else {
                        assert(after[k] == layer);
                    }
                }
                assert forall|k: int| 0 <= k < before.len() implies layer_params_kept(before[k], #[trigger] after[k]) by {
                    if k == i {
                        assert(layer_params_kept(taken, layer));
                        assert(layer_params_kept(before[k], taken));
                        assert forall|j: int| 0 <= j < before[k].neurons@.len() implies neuron_params_kept(
                            before[k].neurons@[j],
                            #[trigger] after[k].neurons@[j],
                        ) by {
                            assert(neuron_params_kept(before[k].neurons@[j], taken.neurons@[j]));
                            assert(neuron_params_kept(taken.neurons@[j], layer.neurons@[j]));
                        }
                    } else {
                        assert(after[k] == current[k]);
                    }
                }
                assert(before.take(i + 1).last() == before[i as int]);
            }
            i = i + 1;
        }
        proof {
            assert(before.take(before.len() as int) =~= before);
        }
        let label = Label::from_outputs(&inputs);
        (label, inputs)
    }

    /// The mean, over the dataset, of the cost between the output of each
    /// datapoint and its one-hot target.
    pub fn cost(&mut self, dataset: Dataset<W>) -> (r: W)
        requires
            old(self).wf(),
            output_width(old(self).spec_input_size(), old(self).spec_layers()) == LABEL_COUNT,
            forall|k: int| 0 <= k < dataset.spec_datapoints().len() ==> (#[trigger] dataset.spec_datapoints()[k]).spec_inputs().len()
                == old(self).spec_input_size(),
        ensures
            final(self).wf(),
            final(self).spec_input_size() == old(self).spec_input_size(),
            final(self).spec_cost() == old(self).spec_cost(),
            layers_params_kept(old(self).spec_layers(), final(self).spec_layers()),
            r == cost_total(
                old(self).spec_layers(),
                old(self).spec_cost(),
                dataset.spec_datapoints(),
                dataset.spec_datapoints().len() as int,
            ).spec_over(W::spec_from_count(dataset.spec_datapoints().len() as usize)),
    {
        let mut total = W::zero();
        let datapoints = dataset.datapoints();
        let mut k: usize = 0;
        while k < datapoints.len()
            invariant
                datapoints@ == dataset.spec_datapoints(),
                forall|q: int| 0 <= q < datapoints@.len() ==> (#[trigger] datapoints@[q]).spec_inputs().len()
                    == old(self).spec_input_size(),
                k <= datapoints@.len(),
                output_width(old(self).spec_input_size(), old(self).spec_layers()) == LABEL_COUNT,
                self.wf(),
                self.spec_input_size() == old(self).spec_input_size(),
                self.spec_cost() == old(self).spec_cost(),
                layers_params_kept(old(self).spec_layers(), self.spec_layers()),
                total == cost_total(old(self).spec_layers(), old(self).spec_cost(), datapoints@, k as int),
            decreases datapoints@.len() - k,
        {
            proof {
                lemma_params_kept_output_width(self.spec_input_size(), old(self).spec_layers(), self.spec_layers());
            }
            let ghost middle = self.spec_layers();
            let (_, outputs) = self.run(&datapoints[k]);
            proof {
                lemma_params_kept_trans(old(self).spec_layers(), middle, self.spec_layers());
                lemma_kept_forward_fold(
                    old(self).spec_layers(),
                    middle,
                    datapoints@[k as int].spec_inputs(),
                    middle.len() as int,
                );
            }
            let targets = datapoints[k].targets();
            total = total.plus(self.cost_function.apply(&outputs, targets));
            k = k + 1;
        }
        total.over(W::from_count(dataset.size()))
    }

    /// Applies `f` to every weight and every bias of every layer, in place;
    /// the topology, the recorded outputs and the cost are kept.
    pub fn map_params<F: Fn(W) -> W>(&mut self, f: &F)
        requires
            forall|w: W| f.requires((w,)),
        ensures
            old(self).wf() ==> final(self).wf(),
            final(self).spec_input_size() == old(self).spec_input_size(),
            final(self).spec_cost() == old(self).spec_cost(),
            layers_mapped(old(self).spec_layers(), final(self).spec_layers(), *f),
    {
        let ghost before = self.layers@;
        let mut i: usize = 0;
        while i < self.layers.len()
            invariant
                forall|w: W| f.requires((w,)),
                self.input_size == old(self).input_size,
                self.cost_function == old(self).cost_function,
                before == old(self).layers@,
                self.layers@.len() == before.len(),
                i <= before.len(),
                forall|k: int| 0 <= k < i ==> layer_mapped(before[k], #[trigger] self.layers@[k], *f),
                forall|k: int| i <= k < before.len() ==> #[trigger] self.layers@[k] == before[k],
            decreases before.len() - i,
        {
            let mut layer = self.layers.remove(i);
            layer.map_params(f);
            self.layers.insert(i, layer);
            i = i + 1;
        }
        proof {
            let after = self.layers@;
            assert forall|k: int, j: int| 0 <= k < before.len() && 0 <= j < before[k].neurons@.len() implies (
            #[trigger] after[k].neurons@[j]).weights@.len() == before[k].neurons@[j].weights@.len() by {
                assert(layer_mapped(before[k], after[k], *f));
                assert(neuron_mapped(before[k].neurons@[j], after[k].neurons@[j], *f));
            }
            assert forall|k: int| 0 <= k < before.len() implies (#[trigger] after[k]).neurons@.len()
                == before[k].neurons@.len() by {
                assert(layer_mapped(before[k], after[k], *f));
            }
            if chained(self.input_size as nat, before) {
                lemma_same_shape_chained(self.input_size as nat, before, after);
            }
        }
    }

    /// A ready network from its parts, or `None` when the layers do not chain
    /// from `input_size`.
    pub fn from_parts(input_size: usize, layers: Vec<Layer<W>>, cost_function: CostFunction) -> (r: Option<Self>)
        ensures
            r is Some <==> rebuilt(input_size as nat, layers@, cost_function) is Some,
            r matches Some(n) ==> {
                &&& n.wf()
                &&& rebuilt(input_size as nat, layers@, cost_function) == Some(
                    (n.spec_input_size(), n.spec_layers(), n.spec_cost()),
                )
            },
    {
        let mut i: usize = 0;
        let mut width: usize = input_size;
        while i < layers.len()
            invariant
                i <= layers@.len(),
                width == input_width_at(input_size as nat, layers@, i as int),
                forall|k: int| 0 <= k < i ==> reads_width(#[trigger] layers@[k], input_width_at(input_size as nat, layers@, k)),
            decreases layers@.len() - i,
        {
            let layer = &layers[i];
            let mut j: usize = 0;
            while j < layer.neurons.len()
                invariant
                    i < layers@.len(),
                    *layer == layers@[i as int],
                    width == input_width_at(input_size as nat, layers@, i as int),
                    forall|k: int| 0 <= k < i ==> reads_width(#[trigger] layers@[k], input_width_at(input_size as nat, layers@, k)),
                    j <= layer.neurons@.len(),
                    forall|q: int| 0 <= q < j ==> (#[trigger] layer.neurons@[q]).weights@.len() == width,
                decreases layer.neurons@.len() - j,
            {
                if layer.neurons[j].weights.len() != width {
                    proof {
                        assert(layer.neurons@[j as int].weights@.len() != width);
                        assert(!reads_width(layers@[i as int], input_width_at(input_size as nat, layers@, i as int)));
                    }
                    return None;
                }
                j = j + 1;
            }
            width = layer.neurons.len();
            i = i + 1;
        }
        Some(Network { input_size, layers, cost_function, marker: PhantomData })
    }

    /// The parts of the network: its input width, its layers and its cost.
    pub fn into_parts(self) -> (r: (usize, Vec<Layer<W>>, CostFunction))
        requires
            self.wf(),
        ensures
            r.0 == self.spec_input_size(),
            r.1@ == self.spec_layers(),
            r.2 == self.spec_cost(),
            chained(r.0 as nat, r.1@),
    {
        (self.input_size, self.layers, self.cost_function)
    }
}

/// Width of the classifier's input: a 64 by 64 RGBA image.
pub const CLASSIFIER_INPUT: usize = 16384;

/// The classifier: 64x64 RGBA inputs, three hidden sigmoid layers of 64
/// neurons and a sigmoid output layer of one neuron per label, measured by
/// mean squared error.
pub fn create_network<W: Scalar>() -> (r: Network<W, Ready>)
    ensures
        r.wf(),
        r.spec_input_size() == CLASSIFIER_INPUT,
        r.spec_cost() == CostFunction::MSE,
        r.spec_layers().len() == 4,
        forall|i: int| 0 <= i < 4 ==> (#[trigger] r.spec_layers()[i]).function == ActivationFunction::Sigmoid,
        r.spec_layers()[0].neurons@.len() == 64,
        r.spec_layers()[1].neurons@.len() == 64,
        r.spec_layers()[2].neurons@.len() == 64,
        r.spec_layers()[3].neurons@.len() == LABEL_COUNT,
        output_width(r.spec_input_size(), r.spec_layers()) == LABEL_COUNT,
{
    let n0 = Network::<W>::new(CLASSIFIER_INPUT);
    let n1 = n0.add_layer(64, ActivationFunction::Sigmoid);
    let n2 = n1.add_layer(64, ActivationFunction::Sigmoid);
    let n3 = n2.add_layer(64, ActivationFunction::Sigmoid);
    let n4 = n3.add_layer(LABEL_COUNT, ActivationFunction::Sigmoid);
    proof {
        let l = n4.spec_layers();
        assert(l.drop_last().drop_last().drop_last().drop_last() =~= Seq::<Layer<W>>::empty());
        assert(l[0] == n1.spec_layers().last());
        assert(l[1] == n2.spec_layers().last());
        assert(l[2] == n3.spec_layers().last());
    }
    n4.build(CostFunction::MSE)
}

/// Random perturbation of parameters, for a search that mutates candidates
/// instead of following gradients.
pub trait Genetic<W> {
    /// Adds to every weight and every bias its own draw from `[-1, 1)`,
    /// scaled by `alpha`.
    fn mutate(&mut self, alpha: W);
}

impl<W: Scalar> Genetic<W> for Neuron<W> {
    fn mutate(&mut self, alpha: W)
        ensures
            neuron_perturbed(*old(self), *final(self), alpha),
    {
        let f = |w: W| -> (v: W)
            ensures
                perturbed(w, v, alpha),
            {
                let d = Neuron::<W>::random();
                let v = w.plus(d.times(alpha));
                proof {
                    let u = choose|u: W| d == unit_draw(u);
                    assert(v == w.spec_plus(unit_draw(u).spec_times(alpha)));
                }
                v
            };
        self.map_params(&f);
        proof {
            lemma_mapped_perturbed(*old(self), *self, f, alpha);
        }
    }
}

impl<W: Scalar> Genetic<W> for Layer<W> {
    fn mutate(&mut self, alpha: W)
        ensures
            layer_perturbed(*old(self), *final(self), alpha),
    {
        let f = |w: W| -> (v: W)
            ensures
                perturbed(w, v, alpha),
            {
                let d = Neuron::<W>::random();
                let v = w.plus(d.times(alpha));
                proof {
                    let u = choose|u: W| d == unit_draw(u);
                    assert(v == w.spec_plus(unit_draw(u).spec_times(alpha)));
                }
                v
            };
        self.map_params(&f);
        proof {
            lemma_layer_mapped_perturbed(*old(self), *self, f, alpha);
        }
    }
}

impl<W: Scalar> Genetic<W> for Network<W, Ready> {
    fn mutate(&mut self, alpha: W)
        ensures
            old(self).wf() ==> final(self).wf(),
            final(self).spec_input_size() == old(self).spec_input_size(),
            final(self).spec_cost() == old(self).spec_cost(),
            layers_perturbed(old(self).spec_layers(), final(self).spec_layers(), alpha),
    {
        let f = |w: W| -> (v: W)
            ensures
                perturbed(w, v, alpha),
            {
                let d = Neuron::<W>::random();
                let v = w.plus(d.times(alpha));
                proof {
                    let u = choose|u: W| d == unit_draw(u);
                    assert(v == w.spec_plus(unit_draw(u).spec_times(alpha)));
                }
                v
            };
        self.map_params(&f);
        proof {
            assert forall|i: int| 0 <= i < old(self).spec_layers().len() implies layer_perturbed(
                old(self).spec_layers()[i],
                #[trigger] self.spec_layers()[i],
                alpha,
            ) by {
                lemma_layer_mapped_perturbed(old(self).spec_layers()[i], self.spec_layers()[i], f, alpha);
            }
        }
    }
}

/// `after` is `before` with every layer perturbed by `alpha`, as mutating a
/// network leaves it.
pub open spec fn layers_perturbed<W: Scalar>(before: Seq<Layer<W>>, after: Seq<Layer<W>>, alpha: W) -> bool {
    &&& after.len() == before.len()
    &&& forall|i: int| 0 <= i < before.len() ==> layer_perturbed(before[i], #[trigger] after[i], alpha)
}

/// Mutation never changes the topology: every layer keeps its activation
/// and its number of neurons, every neuron its number of weights, and the
/// layers still chain.
pub proof fn lemma_mutation_keeps_topology<W: Scalar>(
    input_size: nat,
    before: Seq<Layer<W>>,
    after: Seq<Layer<W>>,
    alpha: W,
)
    requires
        chained(input_size, before),
        layers_perturbed(before, after, alpha),
    ensures
        after.len() == before.len(),
        forall|i: int| 0 <= i < before.len() ==> {
            &&& (#[trigger] after[i]).function == before[i].function
            &&& after[i].neurons@.len() == before[i].neurons@.len()
        },
        forall|i: int, j: int|
            0 <= i < before.len() && 0 <= j < before[i].neurons@.len() ==> (#[trigger] after[i].neurons@[j]).weights@.len()
                == before[i].neurons@[j].weights@.len(),
        chained(input_size, after),
{
    assert forall|i: int, j: int| 0 <= i < before.len() && 0 <= j < before[i].neurons@.len() implies (
    #[trigger] after[i].neurons@[j]).weights@.len() == before[i].neurons@[j].weights@.len() by {
        assert(layer_perturbed(before[i], after[i], alpha));
        assert(neuron_perturbed(before[i].neurons@[j], after[i].neurons@[j], alpha));
    }
    assert forall|i: int| 0 <= i < before.len() implies (#[trigger] after[i]).neurons@.len() == before[i].neurons@.len() by {
        assert(layer_perturbed(before[i], after[i], alpha));
    }
    lemma_same_shape_chained(input_size, before, after);
}

/// Mutation by a step `alpha` under which adding `alpha` times any draw leaves
/// a number as it is (as a zero step does for doubles) keeps every weight,
/// bias, recorded output and activation.
pub proof fn lemma_null_mutation_keeps_params<W: Scalar>(before: Seq<Layer<W>>, after: Seq<Layer<W>>, alpha: W)
    requires
        layers_perturbed(before, after, alpha),
        forall|w: W, u: W| #[trigger] w.spec_plus(unit_draw(u).spec_times(alpha)) == w,
    ensures
        after.len() == before.len(),
        forall|i: int| 0 <= i < before.len() ==> {
            &&& (#[trigger] after[i]).function == before[i].function
            &&& after[i].neurons@.len() == before[i].neurons@.len()
        },
        forall|i: int, j: int|
            0 <= i < before.len() && 0 <= j < before[i].neurons@.len() ==> {
                &&& (#[trigger] after[i].neurons@[j]).weights@ == before[i].neurons@[j].weights@
                &&& after[i].neurons@[j].bias == before[i].neurons@[j].bias
                &&& after[i].neurons@[j].output == before[i].neurons@[j].output
            },
{
    assert forall|i: int, j: int| 0 <= i < before.len() && 0 <= j < before[i].neurons@.len() implies {
        &&& (#[trigger] after[i].neurons@[j]).weights@ == before[i].neurons@[j].weights@
        &&& after[i].neurons@[j].bias == before[i].neurons@[j].bias
        &&& after[i].neurons@[j].output == before[i].neurons@[j].output
    } by {
        assert(layer_perturbed(before[i], after[i], alpha));
        let (a, b) = (before[i].neurons@[j], after[i].neurons@[j]);
        assert(neuron_perturbed(a, b, alpha));
        assert forall|k: int| 0 <= k < a.weights@.len() implies #[trigger] b.weights@[k] == a.weights@[k] by {
            assert(perturbed(a.weights@[k], b.weights@[k], alpha));
        }
        assert(b.weights@ =~= a.weights@);
    }
}

/// Taking a ready network apart and rebuilding it is lossless: the parts are
/// accepted, and the rebuilt network has the same input width, the same
/// layers (every activation, weight and bias) and the same cost.
pub proof fn lemma_parts_round_trip<W>(network: Network<W, Ready>)
    requires
        network.wf(),
    ensures
        rebuilt(network.spec_input_size(), network.spec_layers(), network.spec_cost()) == Some(
            (network.spec_input_size(), network.spec_layers(), network.spec_cost()),
        ),
{
}

} // verus!
