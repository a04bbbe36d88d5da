use vstd::prelude::*;
use crate::scalar::Scalar;

verus! {

/// Number of labels: the width of a classifier's output vector.
pub const LABEL_COUNT: usize = 2;

/// The class a network assigns to an input.
#[derive(Debug, Clone, Copy, PartialEq, Eq, Structural)]
pub enum Label {
    Real,
    Fake,
}

/// Position of the hot entry in the one-hot encoding of `l`.
pub open spec fn hot_index(l: Label) -> nat {
    match l {
        Label::Real => 0,
        Label::Fake => 1,
    }
}

/// The one-hot encoding of `l`: a one at `hot_index(l)`, zeros elsewhere.
pub open spec fn one_hot_of(l: Label) -> Seq<u8> {
    Seq::new(LABEL_COUNT as nat, |i: int| if i == hot_index(l) { 1u8 } else { 0u8 })
}

/// The label whose one-hot encoding peaks at index `i`: index 0 is `Real`,
/// any other index `Fake`.
pub open spec fn label_at(i: int) -> Label {
    if i == 0 {
        Label::Real
    } else {
        Label::Fake
    }
}

/// Position of `bits`, read as an IEEE-754 double, in the total order of
/// `f64::total_cmp`: non-negative values rise with their bit pattern, values
/// with the sign bit set fall with it, and every negative value lies below
/// every non-negative one.
pub open spec fn total_order_key(bits: u64) -> int {
    if bits < 0x8000_0000_0000_0000u64 {
        bits as int
    } else {
        0x7FFF_FFFF_FFFF_FFFFint - bits as int
    }
}

/// `i` is the first index at which `keys` takes its largest value.
pub open spec fn is_first_max(keys: Seq<int>, i: int) -> bool {
    &&& 0 <= i < keys.len()
    &&& forall|j: int| 0 <= j < keys.len() ==> keys[j] <= keys[i]
    &&& forall|j: int| 0 <= j < i ==> keys[j] < keys[i]
}

/// The label of a two-entry output vector given by the bit patterns of its
/// doubles: `Real` unless the second entry is strictly larger.
pub open spec fn label_of_bits(bits: Seq<u64>) -> Label {
    if total_order_key(bits[1]) <= total_order_key(bits[0]) {
        Label::Real
    } else {
        Label::Fake
    }
}

/// The bit patterns of a vector of numbers, read as doubles.
pub open spec fn bits_of<W: Scalar>(values: Seq<W>) -> Seq<u64> {
    values.map_values(|x: W| x.spec_to_bits())
}

/// The total-order keys of a vector of doubles given by their bit patterns.
pub open spec fn keys_of(bits: Seq<u64>) -> Seq<int> {
    bits.map_values(|b: u64| total_order_key(b))
}

/// The key of `f64::total_cmp` for the double with bit pattern `bits`.
pub fn total_order_key_of(bits: u64) -> (r: i64)
    ensures
        r as int == total_order_key(bits),
{
    if bits < 0x8000_0000_0000_0000u64 {
        bits as i64
    } else {
        let magnitude: u64 = bits - 0x8000_0000_0000_0000u64;
        -1i64 - (magnitude as i64)
    }
}

/// Index of the first largest entry of `values`, by the total order of
/// doubles: a strict greater-than scan, so on a tie the earliest index wins.
pub fn first_max_index(values: &Vec<u64>) -> (r: usize)
    requires
        values.len() > 0,
    ensures
        is_first_max(keys_of(values@), r as int),
{
    let ghost keys = keys_of(values@);
    let mut best: usize = 0;
    let mut best_key: i64 = total_order_key_of(values[0]);
    let mut i: usize = 1;
    while i < values.len()
        invariant
            keys == keys_of(values@),
            1 <= i <= values.len(),
            best < i,
            best_key as int == keys[best as int],
            forall|j: int| 0 <= j < i ==> keys[j] <= keys[best as int],
            forall|j: int| 0 <= j < best ==> keys[j] < keys[best as int],
        decreases values.len() - i,
    {
        let key = total_order_key_of(values[i]);
        if key > best_key {
            best = i;
            best_key = key;
        }
        i = i + 1;
    }
    best
}

impl Label {
    /// The one-hot training target of this label: `Real` is `[1, 0]` and
    /// `Fake` is `[0, 1]`.
    pub fn one_hot(&self) -> (r: Vec<u8>)
        ensures
            r@ == one_hot_of(*self),
    {
        let r = match self {
            Label::Real => vec![1u8, 0u8],
            Label::Fake => vec![0u8, 1u8],
        };
        assert(r@ =~= one_hot_of(*self));
        r
    }

    /// The label of a classifier's output vector, given as the bit patterns
    /// of its doubles: the label of the first largest entry in the total
    /// order of doubles.
    pub fn from_bits(outputs: &Vec<u64>) -> (r: Label)
        requires
            outputs.len() == LABEL_COUNT,
        ensures
            exists|i: int| is_first_max(keys_of(outputs@), i) && r == label_at(i),
            r == label_of_bits(outputs@),
    {
        let index = first_max_index(outputs);
        let ghost keys = keys_of(outputs@);
        assert(keys[0] == total_order_key(outputs@[0]));
        assert(keys[1] == total_order_key(outputs@[1]));
        let r = if index == 0 {
            Label::Real
        } else {
            Label::Fake
        };
        assert(is_first_max(keys, index as int) && r == label_at(index as int));
        r
    }

    /// The label of a classifier's output vector: that of its first largest
    /// entry, comparing the entries as doubles in their total order.
    pub fn from_outputs<W: Scalar>(outputs: &Vec<W>) -> (r: Label)
        requires
            outputs@.len() == LABEL_COUNT,
        ensures
            r == label_of_bits(bits_of(outputs@)),
    {
        let mut bits: Vec<u64> = Vec::with_capacity(LABEL_COUNT);
        let mut i: usize = 0;
        while i < outputs.len()
            invariant
                i <= outputs@.len(),
                bits@ == bits_of(outputs@).take(i as int),
            decreases outputs@.len() - i,
        {
            bits.push(outputs[i].to_bits());
            i = i + 1;
            assert(bits@ =~= bits_of(outputs@).take(i as int));
        }
        assert(bits@ =~= bits_of(outputs@));
        Label::from_bits(&bits)
    }
}

} // verus!
