//! The fingerprint type.
use vstd::prelude::*;
use vstd::string::StringExecFns;
use crate::elem::PhonehashElem;
use crate::normalize::{phonehash_elements, text_elements};
use crate::packing::{
    all_ones, blank_or_finalized, capacity, fingerprint_value, in_prefix_range, ones, pack,
    prefix_range, slot, top_set,
};
use crate::repr::PhonehashRepr;

verus! {

/// The fixed-length text of a width-`w` value: one letter per slot, `_` for
/// an empty one.
pub open spec fn rendering(v: nat, w: nat) -> Seq<char> {
    Seq::new(capacity(w), |j: int| PhonehashElem::from_code(slot(v, w, j as nat)).symbol())
}

/// A phonetic fingerprint held in the unsigned integer `T`. Fingerprints
/// order as their integers do.
#[derive(Debug, Clone, Copy, PartialEq, Eq, PartialOrd, Ord, Hash)]
pub struct Phonehash<T: PhonehashRepr>(pub(crate) T);

impl<T: PhonehashRepr> View for Phonehash<T> {
    type V = u128;

    closed spec fn view(&self) -> u128 {
        self.0.wide()
    }
}

/// A raw value that is neither blank nor finalized.
#[derive(Debug, Clone, Copy, PartialEq, Eq, Structural)]
pub struct InvalidPhonehash;

impl InvalidPhonehash {
    pub fn message(&self) -> (r: &'static str) {
        "Phonehash is neither blank nor finalized"
    }
}

fn symbol_str(e: PhonehashElem) -> (r: &'static str)
    ensures
        r@ == seq![e.symbol()],
{
    match e {
        PhonehashElem::Space => {
            proof {
                reveal_strlit("_");
            }
            "_"
        },
        PhonehashElem::A => {
            proof {
                reveal_strlit("A");
            }
            "A"
        },
        PhonehashElem::B => {
            proof {
                reveal_strlit("B");
            }
            "B"
        },
        PhonehashElem::F => {
            proof {
                reveal_strlit("F");
            }
            "F"
        },
        PhonehashElem::S => {
            proof {
                reveal_strlit("S");
            }
            "S"
        },
        PhonehashElem::G => {
            proof {
                reveal_strlit("G");
            }
            "G"
        },
        PhonehashElem::M => {
            proof {
                reveal_strlit("M");
            }
            "M"
        },
        PhonehashElem::W => {
            proof {
                reveal_strlit("W");
            }
            "W"
        },
    }
}

impl<T: PhonehashRepr> Phonehash<T> {
    /// The fingerprint of a text.
    pub fn new(s: &str) -> (r: Self)
        ensures
            r@ as nat == fingerprint_value(text_elements(s@), T::width()),
    {
        let elems = phonehash_elements(s);
        Self::from_elements(&elems)
    }

    /// The fingerprint of a stream of phoneme classes.
    pub fn from_elements(elems: &Vec<PhonehashElem>) -> (r: Self)
        ensures
            r@ as nat == fingerprint_value(elems@, T::width()),
    {
        let v = pack(elems, T::bits());
        Phonehash(T::from_wide(v))
    }

    /// Like `str::starts_with`, but fuzzy and on fingerprints: this value lies
    /// between `other` and `other` with all of its padding bits set.
    pub fn starts_with(&self, other: Self) -> (r: bool)
        ensures
            r == prefix_range(self@, other@, ones(T::width()) as u128),
    {
        let m = all_ones(T::bits());
        in_prefix_range(self.0.to_wide(), other.0.to_wide(), m)
    }

    /// The fixed-length text of the fingerprint, one letter per slot.
    pub fn to_string(&self) -> (r: String)
        ensures
            r@ == rendering(self@ as nat, T::width()),
            r@.len() == capacity(T::width()),
    {
        let cap = T::max_phonemes();
        let mut out = String::new();
        let mut i: u32 = 0;
        while i < cap
            invariant
                i <= cap,
                cap == capacity(T::width()),
                out@ =~= rendering(self@ as nat, T::width()).subrange(0, i as int),
            decreases cap - i,
        {
            match self.0.phoneme_at(i) {
                Some(e) => {
                    out.append(symbol_str(e));
                },
                None => {},
            }
            i = i + 1;
        }
        out
    }

    /// The raw integer, as stored or sent.
    pub fn raw(&self) -> (r: T)
        ensures
            r.wide() == self@,
    {
        self.0
    }

    /// A fingerprint from a raw integer, which must be blank or finalized.
    pub fn from_raw(repr: T) -> (r: Result<Self, InvalidPhonehash>)
        ensures
            r is Ok <==> blank_or_finalized(repr.wide() as nat, T::width()),
            r is Ok ==> r->Ok_0@ == repr.wide(),
    {
        let v = repr.to_wide();
        if v != 0 && !top_set(v, T::bits()) {
            Err(InvalidPhonehash)
        } else {
            Ok(Phonehash(repr))
        }
    }

    /// The two fingerprints are equal.
    pub fn same_as(&self, other: &Self) -> (r: bool)
        ensures
            r == (self@ == other@),
    {
        self.0.to_wide() == other.0.to_wide()
    }

    /// This fingerprint orders before `other`.
    pub fn less_than(&self, other: &Self) -> (r: bool)
        ensures
            r == (self@ < other@),
    {
        self.0.to_wide() < other.0.to_wide()
    }
}

impl<T: PhonehashRepr> core::str::FromStr for Phonehash<T> {
    type Err = core::convert::Infallible;

    fn from_str(s: &str) -> Result<Self, Self::Err> {
        Ok(Self::new(s))
    }
}

/// Texts that have a fingerprint.
pub trait CanPhonehash {
    /// The text.
    spec fn text(&self) -> Seq<char>;

    fn phonehash_elements(&self) -> (r: Vec<PhonehashElem>)
        ensures
            r@ == text_elements(self.text()),
    ;

    /// The fingerprint of the text.
    fn phonehash<T: PhonehashRepr>(&self) -> (r: Phonehash<T>)
        ensures
            r@ as nat == fingerprint_value(text_elements(self.text()), T::width()),
    {
        let elems = self.phonehash_elements();
        Phonehash::from_elements(&elems)
    }
}

impl CanPhonehash for str {
    open spec fn text(&self) -> Seq<char> {
        self@
    }

    fn phonehash_elements(&self) -> (r: Vec<PhonehashElem>) {
        phonehash_elements(self)
    }
}

impl CanPhonehash for String {
    open spec fn text(&self) -> Seq<char> {
        self@
    }

    fn phonehash_elements(&self) -> (r: Vec<PhonehashElem>) {
        phonehash_elements(self.as_str())
    }
}

} // verus!
