//! The unsigned integers that can hold a packed fingerprint.
use vstd::prelude::*;
use vstd::arithmetic::power2::{pow2, lemma2_to64, lemma2_to64_rest};
use vstd::layout::unsigned_int_max_values;
use crate::elem::PhonehashElem;
use crate::packing::{
    all_ones, append_code, capacity, code_at, finalized, in_prefix_range, lemma_pow2_128, ones,
    prefix_range, shift_up, slot, stray, top_set, valid_width,
};

verus! {

/// An unsigned integer of a fixed width used as the storage of a fingerprint.
/// Every operation works on the value as a number of `width()` bits.
pub trait PhonehashRepr: Default + Copy + Clone + Eq + Ord {
    /// The width in bits.
    spec fn width() -> nat;

    /// The value, widened losslessly.
    spec fn wide(&self) -> u128;

    fn bits() -> (r: u32)
        ensures
            r as nat == Self::width(),
            valid_width(r as nat),
    ;

    fn to_wide(&self) -> (r: u128)
        ensures
            r == self.wide(),
            (r as nat) < pow2(Self::width()),
    ;

    fn from_wide(v: u128) -> (r: Self)
        requires
            (v as nat) < pow2(Self::width()),
        ensures
            r.wide() == v,
    ;

    /// The blank value, zero.
    fn blank() -> (r: Self)
        ensures
            r.wide() == 0,
    ;

    /// The low bits that can hold no whole phoneme code.
    fn stray_bits() -> (r: u32)
        ensures
            r as nat == stray(Self::width()),
    {
        Self::bits() % 3
    }

    /// How many phoneme codes fit.
    fn max_phonemes() -> (r: u32)
        ensures
            r as nat == capacity(Self::width()),
    {
        Self::bits() / 3
    }

    /// The top three bits are not all zero.
    fn is_finalized(&self) -> (r: bool)
        ensures
            r == finalized(self.wide() as nat, Self::width()),
    {
        top_set(self.to_wide(), Self::bits())
    }

    /// Moves the stored codes to the top, `remaining` being the number of
    /// unused slots.
    fn finalize(&mut self, remaining: u32)
        requires
            remaining <= capacity(Self::width()),
            (old(self).wide() as nat) < pow2((3 * (capacity(Self::width()) - remaining)) as nat),
        ensures
            final(self).wide() as nat == old(self).wide() as nat * pow2(
                (3 * remaining + stray(Self::width())) as nat,
            ),
    {
        let w = Self::bits();
        let v = shift_up(self.to_wide(), w, remaining);
        *self = Self::from_wide(v);
    }

    /// Stores one more class in an unfinalized value; spaces, vowels and a
    /// repeat of the last stored code are skipped, and so is anything once
    /// the value is finalized.
    fn append(&mut self, elem: PhonehashElem) -> (r: bool)
        ensures
            r == !(elem.code() <= 1 || old(self).wide() % 8 == elem.code() as nat || finalized(
                old(self).wide() as nat,
                Self::width(),
            )),
            final(self).wide() as nat == if r {
                (old(self).wide() * 8 + elem.code()) as nat
            } else {
                old(self).wide() as nat
            },
    {
        let w = Self::bits();
        let (v, stored) = append_code(self.to_wide(), w, elem);
        *self = Self::from_wide(v);
        stored
    }

    /// The class in slot `index`, counted from the top; `None` past the
    /// capacity.
    fn phoneme_at(&self, index: u32) -> (r: Option<PhonehashElem>)
        ensures
            index >= capacity(Self::width()) ==> r.is_none(),
            index < capacity(Self::width()) ==> r == Some(
                PhonehashElem::from_code(slot(self.wide() as nat, Self::width(), index as nat)),
            ),
    {
        code_at(self.to_wide(), Self::bits(), index)
    }

    /// This value lies between `other` and `other` with all of its padding
    /// below the last stored code set.
    fn starts_with(&self, other: Self) -> (r: bool)
        ensures
            r == prefix_range(self.wide(), other.wide(), ones(Self::width()) as u128),
    {
        let m = all_ones(Self::bits());
        in_prefix_range(self.to_wide(), other.to_wide(), m)
    }
}

impl PhonehashRepr for u8 {
    open spec fn width() -> nat {
        8
    }

    open spec fn wide(&self) -> u128 {
        *self as u128
    }

    fn bits() -> (r: u32) {
        8
    }

    fn to_wide(&self) -> (r: u128) {
        proof {
            lemma_pow2_128();
        }
        *self as u128
    }

    fn from_wide(v: u128) -> (r: Self) {
        proof {
            lemma_pow2_128();
        }
        v as u8
    }

    fn blank() -> (r: Self) {
        0
    }
}

impl PhonehashRepr for u16 {
    open spec fn width() -> nat {
        16
    }

    open spec fn wide(&self) -> u128 {
        *self as u128
    }

    fn bits() -> (r: u32) {
        16
    }

    fn to_wide(&self) -> (r: u128) {
        proof {
            lemma2_to64();
        }
        *self as u128
    }

    fn from_wide(v: u128) -> (r: Self) {
        proof {
            lemma2_to64();
        }
        v as u16
    }

    fn blank() -> (r: Self) {
        0
    }
}

impl PhonehashRepr for u32 {
    open spec fn width() -> nat {
        32
    }

    open spec fn wide(&self) -> u128 {
        *self as u128
    }

    fn bits() -> (r: u32) {
        32
    }

    fn to_wide(&self) -> (r: u128) {
        proof {
            lemma2_to64();
        }
        *self as u128
    }

    fn from_wide(v: u128) -> (r: Self) {
        proof {
            lemma2_to64();
        }
        v as u32
    }

    fn blank() -> (r: Self) {
        0
    }
}

impl PhonehashRepr for u64 {
    open spec fn width() -> nat {
        64
    }

    open spec fn wide(&self) -> u128 {
        *self as u128
    }

    fn bits() -> (r: u32) {
        64
    }

    fn to_wide(&self) -> (r: u128) {
        proof {
            lemma2_to64_rest();
        }
        *self as u128
    }

    fn from_wide(v: u128) -> (r: Self) {
        proof {
            lemma2_to64_rest();
        }
        v as u64
    }

    fn blank() -> (r: Self) {
        0
    }
}

impl PhonehashRepr for u128 {
    open spec fn width() -> nat {
        128
    }

    open spec fn wide(&self) -> u128 {
        *self
    }

    fn bits() -> (r: u32) {
        128
    }

    fn to_wide(&self) -> (r: u128) {
        proof {
            lemma_pow2_128();
        }
        *self
    }

    fn from_wide(v: u128) -> (r: Self) {
        v
    }

    fn blank() -> (r: Self) {
        0
    }
}

impl PhonehashRepr for usize {
    open spec fn width() -> nat {
        usize::BITS as nat
    }

    open spec fn wide(&self) -> u128 {
        *self as u128
    }

    fn bits() -> (r: u32) {
        usize::BITS
    }

    fn to_wide(&self) -> (r: u128) {
        proof {
            unsigned_int_max_values();
        }
        *self as u128
    }

    fn from_wide(v: u128) -> (r: Self) {
        proof {
            unsigned_int_max_values();
        }
        v as usize
    }

    fn blank() -> (r: Self) {
        0
    }
}

} // verus!
