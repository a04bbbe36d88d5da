use vstd::prelude::*;
use crate::geometry::{grid_for, image_dimensions, CHANNEL_COUNT};
use crate::label::{Label, LABEL_COUNT, one_hot_of};

use crate::scalar::Scalar;

verus! {

/// One example: an input vector and the label it carries.
pub struct Datapoint<W> {
    inputs: Vec<W>,
    label: Label,
}

/// An ordered collection of examples.
pub struct Dataset<W> {
    datapoints: Vec<Datapoint<W>>,
}

impl<W> Datapoint<W> {
    pub closed spec fn spec_inputs(&self) -> Seq<W> {
        self.inputs@
    }

    pub closed spec fn spec_label(&self) -> Label {
        self.label
    }

    /// An example with the given inputs and label.
    pub fn new(inputs: Vec<W>, label: Label) -> (r: Self)
        ensures
            r.spec_inputs() == inputs@,
            r.spec_label() == label,
    {
        Datapoint { inputs, label }
    }

    /// The input vector.
    pub fn inputs(&self) -> (r: &Vec<W>)
        ensures
            r@ == self.spec_inputs(),
    {
        &self.inputs
    }

    /// The label.
    pub fn label(&self) -> (r: Label)
        ensures
            r == self.spec_label(),
    {
        self.label
    }
}

/// The one-hot encoding of `label`, as numbers.
pub open spec fn targets_of<W: Scalar>(label: Label) -> Seq<W> {
    one_hot_of(label).map_values(|b: u8| W::spec_from_count(b as usize))
}

/// The input that channel value `c` encodes: `c / 256`.
pub open spec fn channel_input<W: Scalar>(c: u8) -> W {
    W::spec_from_count(c as usize).spec_over(W::spec_from_count(256))
}

/// The channel byte that input `v` decodes to: `v * 255`, truncated.
pub open spec fn input_channel<W: Scalar>(v: W) -> u8 {
    v.spec_times(W::spec_from_count(255)).spec_to_byte()
}

/// The noise that a draw `u` from `[0, 1)` gives for input `v`: a point of
/// `[-v, 1 - v)`, scaled by `alpha`.
pub open spec fn noise_from_draw<W: Scalar>(v: W, u: W, alpha: W) -> W {
    let (min, max) = (v.spec_negate(), W::spec_one().spec_minus(v));
    u.spec_times(max.spec_minus(min)).spec_plus(min).spec_times(alpha)
}

impl<W: Scalar> Datapoint<W> {
    /// The training target: the one-hot encoding of the label, as numbers.
    pub fn targets(&self) -> (r: Vec<W>)
        ensures
            r@ == targets_of::<W>(self.spec_label()),
    {
        let hot = self.label.one_hot();
        let mut r: Vec<W> = Vec::with_capacity(LABEL_COUNT);
        let mut i: usize = 0;
        while i < hot.len()
            invariant
                hot@ == one_hot_of(self.label),
                i <= hot@.len(),
                r@ == targets_of::<W>(self.label).take(i as int),
            decreases hot@.len() - i,
        {
            r.push(W::from_count(hot[i] as usize));
            i = i + 1;
            assert(r@ =~= targets_of::<W>(self.label).take(i as int));
        }
        assert(r@ =~= targets_of::<W>(self.label));
        r
    }

    /// A `Real` example whose inputs are the given channel values, in order,
    /// each divided by 256.
    pub fn from_pixels(channels: &Vec<u8>) -> (r: Self)
        ensures
            r.spec_inputs() == channels@.map_values(|c: u8| channel_input::<W>(c)),
            r.spec_label() == Label::Real,
    {
        let scale = W::from_count(256);
        let mut inputs: Vec<W> = Vec::with_capacity(channels.len());
        let mut i: usize = 0;
        while i < channels.len()
            invariant
                i <= channels@.len(),
                scale == W::spec_from_count(256),
                inputs@ == channels@.map_values(|c: u8| channel_input::<W>(c)).take(i as int),
            decreases channels@.len() - i,
        {
            inputs.push(W::from_count(channels[i] as usize).over(scale));
            i = i + 1;
            assert(inputs@ =~= channels@.map_values(|c: u8| channel_input::<W>(c)).take(i as int));
        }
        assert(inputs@ =~= channels@.map_values(|c: u8| channel_input::<W>(c)));
        Datapoint { inputs, label: Label::Real }
    }

    /// The image the inputs describe: its width and height, the most nearly
    /// square grid holding one pixel per four inputs, and its channel bytes,
    /// each input times 255 truncated into a byte.
    pub fn to_pixels(&self) -> (r: (usize, usize, Vec<u8>))
        requires
            self.spec_inputs().len() > 0,
            self.spec_inputs().len() % (CHANNEL_COUNT as nat) == 0,
        ensures
            r.0 * r.1 * CHANNEL_COUNT == self.spec_inputs().len(),
            (r.0 as nat, r.1 as nat) == grid_for(self.spec_inputs().len() / (CHANNEL_COUNT as nat)),
            r.2@ == self.spec_inputs().map_values(|v: W| input_channel(v)),
    {
        let (width, height) = image_dimensions(self.inputs.len());
        let scale = W::from_count(255);
        let mut bytes: Vec<u8> = Vec::with_capacity(self.inputs.len());
        let mut i: usize = 0;
        while i < self.inputs.len()
            invariant
                i <= self.inputs@.len(),
                scale == W::spec_from_count(255),
                bytes@ == self.inputs@.map_values(|v: W| input_channel(v)).take(i as int),
            decreases self.inputs@.len() - i,
        {
            bytes.push(self.inputs[i].times(scale).to_byte());
            i = i + 1;
            assert(bytes@ =~= self.inputs@.map_values(|v: W| input_channel(v)).take(i as int));
        }
        assert(bytes@ =~= self.inputs@.map_values(|v: W| input_channel(v)));
        (width, height, bytes)
    }

    /// A copy with each input `v` moved by a draw from `[-v, 1 - v)` scaled
    /// by `alpha`, together with the noise that was added; the label is kept
    /// and this datapoint is left as it is.
    pub fn add_noise(&self, alpha: W) -> (r: (Self, Vec<W>))
        ensures
            r.0.spec_inputs().len() == self.spec_inputs().len(),
            r.0.spec_label() == self.spec_label(),
            r.1@.len() == self.spec_inputs().len(),
            forall|i: int| 0 <= i < r.1@.len() ==> {
                &&& exists|u: W| r.1@[i] == #[trigger] noise_from_draw(self.spec_inputs()[i], u, alpha)
                &&& r.0.spec_inputs()[i] == self.spec_inputs()[i].spec_plus(r.1@[i])
            },
    {
        let mut noise: Vec<W> = Vec::with_capacity(self.inputs.len());
        let mut inputs: Vec<W> = Vec::with_capacity(self.inputs.len());
        let mut i: usize = 0;
        while i < self.inputs.len()
            invariant
                i <= self.inputs@.len(),
                noise@.len() == i,
                inputs@.len() == i,
                forall|k: int| 0 <= k < i ==> {
                    &&& exists|u: W| noise@[k] == #[trigger] noise_from_draw(self.inputs@[k], u, alpha)
                    &&& inputs@[k] == self.inputs@[k].spec_plus(noise@[k])
                },
            decreases self.inputs@.len() - i,
        {
            let input = self.inputs[i];
            let (min, max) = (input.negate(), W::one().minus(input));
            let u = W::random();
            let n = u.times(max.minus(min)).plus(min).times(alpha);
            assert(n == noise_from_draw(input, u, alpha));
            noise.push(n);
            inputs.push(input.plus(n));
            i = i + 1;
        }
        (Datapoint { inputs, label: self.label }, noise)
    }
}

impl<W> Dataset<W> {
    pub closed spec fn spec_datapoints(&self) -> Seq<Datapoint<W>> {
        self.datapoints@
    }

    /// A dataset holding `datapoints` in order.
    pub fn new(datapoints: Vec<Datapoint<W>>) -> (r: Self)
        ensures
            r.spec_datapoints() == datapoints@,
    {
        Dataset { datapoints }
    }

    /// The examples, in order.
    pub fn datapoints(&self) -> (r: &Vec<Datapoint<W>>)
        ensures
            r@ == self.spec_datapoints(),
    {
        &self.datapoints
    }

    /// The number of examples.
    pub fn size(&self) -> (r: usize)
        ensures
            r == self.spec_datapoints().len(),
    {
        self.datapoints.len()
    }
}

} // verus!
