//! The bitmask that marks the keys of the set that take part in an aggregate.
use vstd::prelude::*;
use crate::field::Fr;

verus! {

/// The number of bits of `bits` that are set.
pub open spec fn count_ones(bits: Seq<bool>) -> nat
    decreases bits.len(),
{
    if bits.len() == 0 {
        0
    } else {
        count_ones(bits.drop_last()) + if bits.last() {
            1nat
        } else {
            0nat
        }
    }
}

/// The field element that stands for a bit.
pub open spec fn bit_value(b: bool) -> nat {
    if b {
        1
    } else {
        0
    }
}

/// The bits as field elements, one for one.
pub open spec fn bit_values(bits: Seq<bool>) -> Seq<nat> {
    bits.map_values(|b: bool| bit_value(b))
}

/// No more bits are set than there are bits.
pub proof fn lemma_count_ones_bounded(bits: Seq<bool>)
    ensures
        count_ones(bits) <= bits.len(),
    decreases bits.len(),
{
    if bits.len() > 0 {
        lemma_count_ones_bounded(bits.drop_last());
    }
}

/// Where no bit is set, the count is zero, and the other way round.
pub proof fn lemma_count_ones_zero(bits: Seq<bool>)
    ensures
        count_ones(bits) == 0 <==> (forall|i: int| 0 <= i < bits.len() ==> !bits[i]),
    decreases bits.len(),
{
    if bits.len() > 0 {
        lemma_count_ones_zero(bits.drop_last());
        let init = bits.drop_last();
        if count_ones(bits) == 0 {
            assert forall|i: int| 0 <= i < bits.len() implies !bits[i] by {
                if i < init.len() {
                    assert(init[i] == bits[i]);
                }
            }
        } else if forall|i: int| 0 <= i < bits.len() ==> !bits[i] {
            assert forall|i: int| 0 <= i < init.len() implies !init[i] by {
                assert(init[i] == bits[i]);
            }
        }
    }
}

/// The number of bits that are set.
pub fn count_set_bits(bits: &Vec<bool>) -> (r: usize)
    ensures
        r == count_ones(bits@),
{
    let mut n: usize = 0;
    let mut i: usize = 0;
    while i < bits.len()
        invariant
            i <= bits.len(),
            n == count_ones(bits@.take(i as int)),
            n <= i,
        decreases bits.len() - i,
    {
        proof {
            assert(bits@.take(i + 1).drop_last() =~= bits@.take(i as int));
        }
        if bits[i] {
            n = n + 1;
        }
        i = i + 1;
    }
    proof {
        assert(bits@.take(bits.len() as int) =~= bits@);
    }
    n
}

/// An ordered sequence of bits, one for each key of a set.
#[derive(Debug, PartialEq, Eq)]
pub struct Bitmask {
    bits: Vec<bool>,
}

impl View for Bitmask {
    type V = Seq<bool>;

    closed spec fn view(&self) -> Seq<bool> {
        self.bits@
    }
}

impl Clone for Bitmask {
    fn clone(&self) -> (r: Bitmask)
        ensures
            r@ == self@,
    {
        Bitmask { bits: self.bits.clone() }
    }
}

impl Bitmask {
    /// The bitmask with the given bits.
    pub fn from_bits(bits: &[bool]) -> (r: Bitmask)
        ensures
            r@ == bits@,
    {
        let mut v: Vec<bool> = Vec::new();
        let mut i: usize = 0;
        while i < bits.len()
            invariant
                i <= bits.len(),
                v@ == bits@.take(i as int),
            decreases bits.len() - i,
        {
            v.push(bits[i]);
            proof {
                assert(bits@.take(i + 1) =~= bits@.take(i as int).push(bits@[i as int]));
            }
            i = i + 1;
        }
        proof {
            assert(bits@.take(bits.len() as int) =~= bits@);
        }
        Bitmask { bits: v }
    }

    /// The bits, in order.
    pub fn to_bits(&self) -> (r: Vec<bool>)
        ensures
            r@ == self@,
    {
        self.bits.clone()
    }

    /// The number of bits, set or not.
    pub fn size(&self) -> (r: usize)
        ensures
            r == self@.len(),
    {
        self.bits.len()
    }

    /// The number of bits that are set.
    pub fn count_ones(&self) -> (r: usize)
        ensures
            r == count_ones(self@),
    {
        count_set_bits(&self.bits)
    }

    /// The bits as field elements: one for a set bit, zero for the others.
    pub fn to_bits_as_field_elements(&self) -> (r: Vec<Fr>)
        ensures
            crate::field::values(r@) == bit_values(self@),
    {
        let mut r: Vec<Fr> = Vec::new();
        let mut i: usize = 0;
        while i < self.bits.len()
            invariant
                i <= self.bits.len(),
                r.len() == i,
                forall|j: int| 0 <= j < i ==> r@[j]@ == bit_value(self.bits@[j]),
            decreases self.bits.len() - i,
        {
            if self.bits[i] {
                r.push(Fr::one());
            } else {
                r.push(Fr::zero());
            }
            i = i + 1;
        }
        proof {
            assert(crate::field::values(r@) =~= bit_values(self@));
        }
        r
    }
}

} // verus!
