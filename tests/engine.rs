use neural::activation::ActivationFunction;
use neural::cost::CostFunction;
use neural::label::Label;
use neural::network::{create_network, Genetic, Layer, Network, Neuron, Ready, CLASSIFIER_INPUT};
use neural::scalar::Scalar;
use neural::training::{Datapoint, Dataset};

#[derive(Clone, Copy, Debug, PartialEq)]
struct F(f64);

impl Scalar for F {
    fn spec_zero() -> Self {
        Self::zero()
    }
    fn spec_one() -> Self {
        Self::one()
    }
    fn spec_from_count(n: usize) -> Self {
        Self::from_count(n)
    }
    fn spec_plus(self, other: Self) -> Self {
        self.plus(other)
    }
    fn spec_minus(self, other: Self) -> Self {
        self.minus(other)
    }
    fn spec_times(self, other: Self) -> Self {
        self.times(other)
    }
    fn spec_over(self, other: Self) -> Self {
        self.over(other)
    }
    fn spec_negate(self) -> Self {
        self.negate()
    }
    fn spec_larger(self, other: Self) -> Self {
        self.larger(other)
    }
    fn spec_exp(self) -> Self {
        Scalar::exp(self)
    }
    fn spec_ln(self) -> Self {
        Scalar::ln(self)
    }
    fn spec_to_bits(self) -> u64 {
        Scalar::to_bits(self)
    }
    fn spec_to_byte(self) -> u8 {
        self.to_byte()
    }
    fn zero() -> Self {
        F(0.0)
    }
    fn one() -> Self {
        F(1.0)
    }
    fn from_count(n: usize) -> Self {
        F(n as f64)
    }
    fn random() -> Self {
        F(rand::random::<f64>())
    }
    fn plus(self, o: Self) -> Self {
        F(self.0 + o.0)
    }
    fn minus(self, o: Self) -> Self {
        F(self.0 - o.0)
    }
    fn times(self, o: Self) -> Self {
        F(self.0 * o.0)
    }
    fn over(self, o: Self) -> Self {
        F(self.0 / o.0)
    }
    fn negate(self) -> Self {
        F(-self.0)
    }
    fn larger(self, o: Self) -> Self {
        F(f64::max(self.0, o.0))
    }
    fn exp(self) -> Self {
        F(self.0.exp())
    }
    fn ln(self) -> Self {
        F(self.0.ln())
    }
    fn to_bits(self) -> u64 {
        self.0.to_bits()
    }
    fn to_byte(self) -> u8 {
        self.0 as u8
    }
}

fn fs(values: &[f64]) -> Vec<F> {
    values.iter().map(|&v| F(v)).collect()
}

fn raw(values: &[F]) -> Vec<f64> {
    values.iter().map(|v| v.0).collect()
}

fn close(a: f64, b: f64) -> bool {
    (a - b).abs() < 1e-12
}

fn neuron(weights: &[f64], bias: f64) -> Neuron<F> {
    Neuron { weights: fs(weights), bias: F(bias), output: F(0.0) }
}

/// 2 inputs -> 2 (ReLU) -> 2 (Linear), fixed parameters.
fn fixed_network(cost: CostFunction) -> Network<F, Ready> {
    let first = Layer {
        neurons: vec![neuron(&[1.0, 2.0], 0.5), neuron(&[-1.0, 1.0], 0.0)],
        function: ActivationFunction::ReLU,
    };
    let second = Layer {
        neurons: vec![neuron(&[1.0, 0.0], 0.0), neuron(&[0.0, 1.0], 1.0)],
        function: ActivationFunction::Linear,
    };
    Network::from_parts(2, vec![first, second], cost).expect("layers chain")
}

fn params_of(net: &Network<F, Ready>) -> Vec<(Vec<f64>, f64)> {
    net.layers()
        .iter()
        .flat_map(|l| l.neurons.iter().map(|n| (raw(&n.weights), n.bias.0)))
        .collect()
}

#[test]
fn defaults_are_linear_and_mse() {
    assert_eq!(ActivationFunction::default(), ActivationFunction::Linear);
    assert_eq!(CostFunction::default(), CostFunction::MSE);
}

#[test]
fn activations_preserve_length() {
    let values = fs(&[-3.0, -0.5, 0.0, 0.5, 4.0]);
    for f in [
        ActivationFunction::Linear,
        ActivationFunction::ReLU,
        ActivationFunction::Sigmoid,
        ActivationFunction::Softmax,
    ] {
        assert_eq!(f.apply(&values).len(), values.len());
        assert_eq!(f.apply(&Vec::<F>::new()).len(), 0);
    }
}

#[test]
fn linear_and_relu_values() {
    assert_eq!(ActivationFunction::Linear.apply(&fs(&[1.0, -2.0])), fs(&[1.0, -2.0]));
    assert_eq!(ActivationFunction::ReLU.apply(&fs(&[-1.0, 2.0, 0.0])), fs(&[0.0, 2.0, 0.0]));
}

#[test]
fn sigmoid_stays_strictly_between_zero_and_one() {
    assert_eq!(ActivationFunction::Sigmoid.apply(&fs(&[0.0])), fs(&[0.5]));
    for v in ActivationFunction::Sigmoid.apply(&fs(&[-30.0, -1.0, 0.3, 1.0, 30.0])) {
        assert!(v.0 > 0.0 && v.0 < 1.0);
    }
}

#[test]
fn softmax_sums_to_one() {
    assert_eq!(ActivationFunction::Softmax.apply(&fs(&[0.0, 0.0])), fs(&[0.5, 0.5]));
    let out = ActivationFunction::Softmax.apply(&fs(&[1.0, 2.0, 3.0, -4.0]));
    let total: f64 = out.iter().map(|v| v.0).sum();
    assert!(close(total, 1.0));
    assert!(out.iter().all(|v| v.0 > 0.0 && v.0 < 1.0));
    let e = std::f64::consts::E;
    assert!(close(out[2].0, e.powi(3) / (e + e * e + e.powi(3) + e.powi(-4))));
}

#[test]
fn mean_squared_error_values() {
    let same = CostFunction::MSE.apply(&fs(&[1.0, 0.0]), fs(&[1.0, 0.0]));
    assert_eq!(same, F(0.0));
    let off = CostFunction::MSE.apply(&fs(&[0.5, 0.0]), fs(&[1.0, 0.0]));
    assert_eq!(off, F(0.125));
}

#[test]
fn cross_entropy_values() {
    let even = CostFunction::CCE.apply(&fs(&[0.0, 0.0]), fs(&[1.0, 0.0]));
    assert!(close(even.0, std::f64::consts::LN_2));
    let saturated = CostFunction::CCE.apply(&fs(&[100.0, 0.0]), fs(&[1.0, 0.0]));
    assert!(saturated.0 >= 0.0 && saturated.0 < 1e-40);
}

#[test]
fn weighted_sum_is_recorded() {
    let mut n = neuron(&[1.0, 2.0, 3.0], 0.5);
    let r = n.weighted_sum(&fs(&[1.0, 1.0, 2.0]));
    assert_eq!(r, F(9.5));
    assert_eq!(n.output, F(9.5));
    assert_eq!(raw(&n.weights), vec![1.0, 2.0, 3.0]);
}

#[test]
fn random_draws_lie_in_unit_interval() {
    for _ in 0..1000 {
        let r: F = Neuron::<F>::random();
        assert!(r.0 >= -1.0 && r.0 <= 1.0);
    }
    let n = Neuron::<F>::new(5);
    assert_eq!(n.weights.len(), 5);
    assert!(n.weights.iter().chain([n.bias].iter()).all(|w| w.0 >= -1.0 && w.0 <= 1.0));
    assert_eq!(n.output, F(0.0));
}

#[test]
fn new_layer_shape() {
    let layer = Layer::<F>::new(4, 3, ActivationFunction::Softmax);
    assert_eq!(layer.get_size(), 3);
    assert_eq!(layer.function, ActivationFunction::Softmax);
    assert!(layer.neurons.iter().all(|n| n.weights.len() == 4));
    assert_eq!(layer.outputs(), fs(&[0.0, 0.0, 0.0]));
}

#[test]
fn forward_records_sums_then_activates() {
    let mut layer = Layer {
        neurons: vec![neuron(&[1.0, 2.0], 0.5), neuron(&[-1.0, 1.0], 0.0)],
        function: ActivationFunction::ReLU,
    };
    let out = layer.forward(&fs(&[2.0, -1.0]));
    assert_eq!(out, fs(&[0.5, 0.0]));
    assert_eq!(layer.outputs(), fs(&[0.5, -3.0]));
}

#[test]
fn builder_chains_widths() {
    let net = Network::<F>::new(3);
    assert_eq!(net.output_size(), 3);
    assert_eq!(net.input_size(), 3);
    assert_eq!(net.layers().len(), 0);
    assert_eq!(net.cost_function(), CostFunction::MSE);
    let net = net.add_layer(4, ActivationFunction::ReLU).add_layer(2, ActivationFunction::Softmax);
    assert_eq!(net.output_size(), 2);
    let net = net.build(CostFunction::CCE);
    assert_eq!(net.cost_function(), CostFunction::CCE);
    let layers = net.layers();
    assert_eq!(layers.len(), 2);
    assert!(layers[0].neurons.iter().all(|n| n.weights.len() == 3));
    assert!(layers[1].neurons.iter().all(|n| n.weights.len() == 4));
    assert_eq!(layers[1].function, ActivationFunction::Softmax);
}

#[test]
fn run_forwards_through_every_layer() {
    let mut net = fixed_network(CostFunction::MSE);
    let point = Datapoint::new(fs(&[1.0, 3.0]), Label::Fake);
    let (label, outputs) = net.run(&point);
    // first layer: relu([1 + 6 + 0.5, -1 + 3]) = [7.5, 2]; second: [7.5, 3]
    assert_eq!(outputs, fs(&[7.5, 3.0]));
    assert_eq!(label, Label::Real);
    assert_eq!(net.layers()[0].outputs(), fs(&[7.5, 2.0]));
    assert_eq!(net.layers()[1].outputs(), fs(&[7.5, 3.0]));
    let (label, outputs) = net.run(&Datapoint::new(fs(&[0.0, 0.0]), Label::Real));
    assert_eq!(outputs, fs(&[0.5, 1.0]));
    assert_eq!(label, Label::Fake);
}

#[test]
fn classifier_runs_to_two_outputs() {
    let input = 64 * 64 * 4;
    let net = Network::<F>::new(input)
        .add_layer(64, ActivationFunction::Sigmoid)
        .add_layer(64, ActivationFunction::Sigmoid)
        .add_layer(64, ActivationFunction::Sigmoid)
        .add_layer(2, ActivationFunction::Sigmoid);
    let mut net = net.build(CostFunction::MSE);
    let point = Datapoint::new(vec![F(0.5); input], Label::Real);
    let (label, outputs) = net.run(&point);
    assert_eq!(outputs.len(), 2);
    assert!(label == Label::Real || label == Label::Fake);
}

#[test]
fn cost_averages_over_dataset() {
    let mut net = fixed_network(CostFunction::MSE);
    let set = Dataset::new(vec![
        Datapoint::new(fs(&[0.0, 0.0]), Label::Fake), // outputs [0.5, 1]: (0.25 + 0) / 2
        Datapoint::new(fs(&[0.0, 0.0]), Label::Real), // (0.25 + 1) / 2
    ]);
    let c = net.cost(set);
    assert_eq!(c, F((0.125 + 0.625) / 2.0));
}

#[test]
fn mutate_by_zero_keeps_parameters() {
    let mut net = fixed_network(CostFunction::MSE);
    let before = params_of(&net);
    net.mutate(F(0.0));
    assert_eq!(params_of(&net), before);
    let mut n = neuron(&[1.0, -2.0], 3.0);
    n.mutate(F(0.0));
    assert_eq!(raw(&n.weights), vec![1.0, -2.0]);
    assert_eq!(n.bias, F(3.0));
}

#[test]
fn mutate_changes_parameters_not_topology() {
    let mut net = fixed_network(CostFunction::CCE);
    let before = params_of(&net);
    net.mutate(F(0.5));
    let after = params_of(&net);
    assert_eq!(after.len(), before.len());
    for ((wb, bb), (wa, ba)) in before.iter().zip(after.iter()) {
        assert_eq!(wb.len(), wa.len());
        assert!(wb.iter().zip(wa.iter()).all(|(x, y)| x != y && (x - y).abs() <= 0.5));
        assert!(bb != ba);
    }
    assert_eq!(net.output_size(), 2);
    assert_eq!(net.cost_function(), CostFunction::CCE);
    let mut layer = Layer::<F>::new(3, 2, ActivationFunction::Linear);
    let old = layer.neurons[1].bias;
    layer.mutate(F(2.0));
    assert_eq!(layer.get_size(), 2);
    assert_ne!(layer.neurons[1].bias, old);
}

#[test]
fn map_params_applies_function() {
    let mut net = fixed_network(CostFunction::MSE);
    net.map_params(&|w: F| F(w.0 * 2.0));
    assert_eq!(params_of(&net)[0], (vec![2.0, 4.0], 1.0));
    let mut n = neuron(&[1.0, 2.0], 3.0);
    n.map_params(&|w: F| F(-w.0));
    assert_eq!(raw(&n.weights), vec![-1.0, -2.0]);
    assert_eq!(n.bias, F(-3.0));
}

#[test]
fn parts_round_trip() {
    let net = Network::<F>::new(3)
        .add_layer(2, ActivationFunction::ReLU)
        .add_layer(2, ActivationFunction::Sigmoid)
        .build(CostFunction::CCE);
    let before = params_of(&net);
    let (input, layers, cost) = net.into_parts();
    assert_eq!(input, 3);
    assert_eq!(cost, CostFunction::CCE);
    let rebuilt = Network::<F, Ready>::from_parts(input, layers, cost).expect("parts chain");
    assert_eq!(rebuilt.input_size(), 3);
    assert_eq!(rebuilt.layers().len(), 2);
    assert_eq!(rebuilt.layers()[0].function, ActivationFunction::ReLU);
    assert_eq!(rebuilt.layers()[1].function, ActivationFunction::Sigmoid);
    assert_eq!(rebuilt.cost_function(), CostFunction::CCE);
    assert_eq!(params_of(&rebuilt), before);
}

#[test]
fn parts_that_do_not_chain_are_refused() {
    let first = Layer::<F>::new(3, 2, ActivationFunction::ReLU);
    let wrong = Layer::<F>::new(3, 1, ActivationFunction::ReLU);
    assert!(Network::<F, Ready>::from_parts(3, vec![first, wrong], CostFunction::MSE).is_none());
    let first = Layer::<F>::new(4, 2, ActivationFunction::ReLU);
    assert!(Network::<F, Ready>::from_parts(3, vec![first], CostFunction::MSE).is_none());
    assert!(Network::<F, Ready>::from_parts(3, vec![], CostFunction::MSE).is_some());
}

#[test]
fn datapoints_and_datasets() {
    let d = Datapoint::new(fs(&[0.5, 0.25]), Label::Fake);
    assert_eq!(d.inputs(), &fs(&[0.5, 0.25]));
    assert_eq!(d.label(), Label::Fake);
    assert_eq!(d.targets(), fs(&[0.0, 1.0]));
    let e = Datapoint::new(fs(&[0.0, 0.0]), Label::Real);
    assert_eq!(e.targets(), fs(&[1.0, 0.0]));
    let set = Dataset::new(vec![d, e]);
    assert_eq!(set.size(), 2);
    assert_eq!(set.datapoints()[1].label(), Label::Real);
    assert_eq!(Dataset::<F>::new(vec![]).size(), 0);
}

#[test]
fn pixels_round_trip_through_datapoint() {
    let pixels: Vec<u8> = vec![0, 1, 2, 255, 17, 128, 200, 255, 64, 65, 66, 255, 250, 251, 252, 0];
    let point = Datapoint::<F>::from_pixels(&pixels);
    assert_eq!(point.label(), Label::Real);
    assert_eq!(point.inputs().len(), 16);
    assert_eq!(point.inputs()[1], F(1.0 / 256.0));
    assert_eq!(point.inputs()[3], F(255.0 / 256.0));
    let (width, height, bytes) = point.to_pixels();
    assert_eq!((width, height), (2, 2));
    for (a, b) in pixels.iter().zip(bytes.iter()) {
        assert!((*a as i32 - *b as i32).abs() <= 1);
    }
    assert_eq!(bytes[3], 254);
}

#[test]
fn noise_stays_in_range_and_leaves_source_untouched() {
    let point = Datapoint::new(fs(&[0.0, 0.25, 0.5, 0.99]), Label::Fake);
    let (noisy, noise) = point.add_noise(F(1.0));
    assert_eq!(noise.len(), 4);
    assert_eq!(noisy.label(), Label::Fake);
    assert_eq!(point.inputs(), &fs(&[0.0, 0.25, 0.5, 0.99]));
    for ((v, n), out) in point.inputs().iter().zip(noise.iter()).zip(noisy.inputs().iter()) {
        assert!(n.0 >= -v.0 && n.0 <= 1.0 - v.0);
        assert_eq!(out.0, v.0 + n.0);
        assert!(out.0 >= 0.0 && out.0 <= 1.0);
    }
    let (same, zero) = point.add_noise(F(0.0));
    assert_eq!(same.inputs(), point.inputs());
    assert!(zero.iter().all(|n| n.0 == 0.0));
}

#[test]
fn generic_label_matches_bit_label() {
    assert_eq!(Label::from_outputs(&fs(&[0.9, 0.1])), Label::Real);
    assert_eq!(Label::from_outputs(&fs(&[0.2, 0.8])), Label::Fake);
    assert_eq!(Label::from_outputs(&fs(&[0.5, 0.5])), Label::Real);
}

#[test]
fn create_network_builds_the_classifier() {
    let mut net = create_network::<F>();
    assert_eq!(net.input_size(), CLASSIFIER_INPUT);
    assert_eq!(CLASSIFIER_INPUT, 64 * 64 * 4);
    assert_eq!(net.cost_function(), CostFunction::MSE);
    let sizes: Vec<usize> = net.layers().iter().map(|l| l.get_size()).collect();
    assert_eq!(sizes, vec![64, 64, 64, 2]);
    assert!(net.layers().iter().all(|l| l.function == ActivationFunction::Sigmoid));
    let (label, outputs) = net.run(&Datapoint::new(vec![F(0.25); CLASSIFIER_INPUT], Label::Real));
    assert_eq!(outputs.len(), 2);
    assert_eq!(label, Label::from_outputs(&outputs));
    assert!(outputs.iter().all(|o| o.0 > 0.0 && o.0 < 1.0));
}
