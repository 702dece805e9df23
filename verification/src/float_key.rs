//! A key that gives real-valued scores a total order.
use crate::binary64::lemma_rank_orders_as_value;
use crate::binary64::Binary64;
use crate::binary64::INFINITY_BITS;
use crate::binary64::SIGN_BIT;
use std::cmp::Ordering;
use vstd::prelude::*;

verus! {

/// A score used as a key. Numbers sort as numbers, the two zeros as one key;
/// every NaN sorts before every number, and all NaNs are one key.
#[derive(Clone, Copy, Debug)]
pub struct FloatKey(pub Binary64);

impl FloatKey {
    /// The integer by which the key is sorted and found again: the rank of
    /// the number, or the least integer for a NaN.
    pub open spec fn sort_key_spec(self) -> int {
        if self.0.nan() {
            i64::MIN as int
        } else {
            self.0.rank()
        }
    }

    /// The key of `score`.
    pub fn new(score: Binary64) -> (key: FloatKey)
        ensures
            key.0 == score,
    {
        FloatKey(score)
    }

    /// The integer by which the key is sorted and found again.
    pub fn sort_key(&self) -> (code: i64)
        ensures
            code == self.sort_key_spec(),
    {
        if self.0.is_nan() {
            i64::MIN
        } else {
            let magnitude: u64 = self.0.magnitude_bits();
            if self.0.is_sign_negative() {
                -(magnitude as i64)
            } else {
                magnitude as i64
            }
        }
    }

    /// The pattern that stands for the keys with sort key `code`: the
    /// magnitude with its sign, the positive zero for 0, and the quiet NaN
    /// without payload for the least integer.
    pub open spec fn pattern_of(code: int) -> int {
        if code == i64::MIN {
            0x7FF8_0000_0000_0000
        } else if code < 0 {
            SIGN_BIT - code
        } else {
            code
        }
    }

    /// The key that `code` is the sort key of, where it is one: the least
    /// integer, or an integer that is no further from 0 than the pattern of
    /// infinity.
    pub fn from_sort_key(code: i64) -> (key: Option<FloatKey>)
        ensures
            key is Some <==> (code == i64::MIN || -INFINITY_BITS <= code <= INFINITY_BITS),
            key matches Some(k) ==> k.0.bits == Self::pattern_of(code as int),
            key matches Some(k) ==> k.sort_key_spec() == code,
    {
        if code == i64::MIN {
            Some(FloatKey(Binary64 { bits: 0x7FF8_0000_0000_0000 }))
        } else if 0 <= code && code <= 0x7FF0_0000_0000_0000 {
            Some(FloatKey(Binary64 { bits: code as u64 }))
        } else if -0x7FF0_0000_0000_0000 <= code && code < 0 {
            Some(FloatKey(Binary64 { bits: SIGN_BIT + ((-code) as u64) }))
        } else {
            None
        }
    }

    /// Compares two keys by their sort keys. It never fails: a NaN is less
    /// than every number and equal to every NaN.
    pub fn cmp(&self, other: &FloatKey) -> (order: Ordering)
        ensures
            order is Less <==> self.sort_key_spec() < other.sort_key_spec(),
            order is Equal <==> self.sort_key_spec() == other.sort_key_spec(),
            order is Greater <==> self.sort_key_spec() > other.sort_key_spec(),
    {
        let a: i64 = self.sort_key();
        let b: i64 = other.sort_key();
        if a < b {
            Ordering::Less
        } else if a == b {
            Ordering::Equal
        } else {
            Ordering::Greater
        }
    }
}

/// Numbers sort by their keys as they compare as numbers.
pub proof fn lemma_sort_key_orders_numbers(a: FloatKey, b: FloatKey)
    requires
        !a.0.nan(),
        !b.0.nan(),
    ensures
        a.sort_key_spec() < b.sort_key_spec() <==> a.0.lt_spec(b.0),
        a.sort_key_spec() == b.sort_key_spec() <==> a.0.same_number(b.0),
{
    lemma_rank_orders_as_value(a.0, b.0);
}

/// A NaN sorts strictly before every number.
pub proof fn lemma_nan_sorts_first(a: FloatKey, b: FloatKey)
    requires
        a.0.nan(),
    ensures
        a.sort_key_spec() <= b.sort_key_spec(),
        !b.0.nan() ==> a.sort_key_spec() < b.sort_key_spec(),
{
}

} // verus!
