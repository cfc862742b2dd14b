use vstd::prelude::*;

verus! {

/// One phoneme class. `Space` separates words, `A` stands for every vowel,
/// and the other six are consonant groups; `h` has no class at all.
#[derive(Debug, Clone, Copy, PartialEq, Eq, Structural)]
pub enum PhonehashElem {
    Space,
    /// a, e, i, o, u, y
    A,
    /// b, d, t, p
    B,
    /// f, v
    F,
    /// c, s, x, k, q, z
    S,
    /// g, j
    G,
    /// m, n
    M,
    /// l, r, w
    W,
}

impl PhonehashElem {
    /// The 3-bit code of the class, `Space` being 0.
    pub open spec fn code(self) -> u8 {
        match self {
            PhonehashElem::Space => 0,
            PhonehashElem::A => 1,
            PhonehashElem::B => 2,
            PhonehashElem::F => 3,
            PhonehashElem::S => 4,
            PhonehashElem::G => 5,
            PhonehashElem::M => 6,
            PhonehashElem::W => 7,
        }
    }

    /// The letter that stands for the class when a fingerprint is rendered.
    pub open spec fn symbol(self) -> char {
        match self {
            PhonehashElem::Space => '_',
            PhonehashElem::A => 'A',
            PhonehashElem::B => 'B',
            PhonehashElem::F => 'F',
            PhonehashElem::S => 'S',
            PhonehashElem::G => 'G',
            PhonehashElem::M => 'M',
            PhonehashElem::W => 'W',
        }
    }

    /// The class with a given 3-bit code.
    pub open spec fn from_code(c: u8) -> PhonehashElem {
        if c == 0 {
            PhonehashElem::Space
        } else if c == 1 {
            PhonehashElem::A
        } else if c == 2 {
            PhonehashElem::B
        } else if c == 3 {
            PhonehashElem::F
        } else if c == 4 {
            PhonehashElem::S
        } else if c == 5 {
            PhonehashElem::G
        } else if c == 6 {
            PhonehashElem::M
        } else {
            PhonehashElem::W
        }
    }

    pub fn is_space(&self) -> (r: bool)
        ensures
            r == (*self == PhonehashElem::Space),
    {
        *self == PhonehashElem::Space
    }

    /// The 3-bit code of the class.
    pub fn to_code(&self) -> (r: u8)
        ensures
            r == self.code(),
            r < 8,
    {
        match self {
            PhonehashElem::Space => 0,
            PhonehashElem::A => 1,
            PhonehashElem::B => 2,
            PhonehashElem::F => 3,
            PhonehashElem::S => 4,
            PhonehashElem::G => 5,
            PhonehashElem::M => 6,
            PhonehashElem::W => 7,
        }
    }

    /// The class with code `c & 7`.
    pub fn from_bits(c: u8) -> (r: PhonehashElem)
        requires
            c < 8,
        ensures
            r == PhonehashElem::from_code(c),
            r.code() == c,
    {
        if c == 0 {
            PhonehashElem::Space
        } else if c == 1 {
            PhonehashElem::A
        } else if c == 2 {
            PhonehashElem::B
        } else if c == 3 {
            PhonehashElem::F
        } else if c == 4 {
            PhonehashElem::S
        } else if c == 5 {
            PhonehashElem::G
        } else if c == 6 {
            PhonehashElem::M
        } else {
            PhonehashElem::W
        }
    }

    /// The rendering letter of the class.
    pub fn to_char(&self) -> (r: char)
        ensures
            r == self.symbol(),
    {
        match self {
            PhonehashElem::Space => '_',
            PhonehashElem::A => 'A',
            PhonehashElem::B => 'B',
            PhonehashElem::F => 'F',
            PhonehashElem::S => 'S',
            PhonehashElem::G => 'G',
            PhonehashElem::M => 'M',
            PhonehashElem::W => 'W',
        }
    }
}

} // verus!
