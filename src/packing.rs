//! The arithmetic model of a packed fingerprint, and the packing, decoding
//! and prefix operations on it, carried out on a `u128` for every width.
use vstd::prelude::*;
use vstd::arithmetic::power2::{pow2, lemma_pow2_adds, lemma2_to64, lemma2_to64_rest, lemma_pow2_unfold, lemma_pow2_strictly_increases, lemma_pow2_pos};
use vstd::arithmetic::mul::lemma_mul_is_associative;
use crate::elem::PhonehashElem;

verus! {

/// The widths, in bits, that a fingerprint can have.
pub open spec fn valid_width(w: nat) -> bool {
    w == 8 || w == 16 || w == 32 || w == 64 || w == 128
}

/// How many phoneme codes fit in `w` bits.
pub open spec fn capacity(w: nat) -> nat {
    w / 3
}

/// The low padding bits that can hold no whole code.
pub open spec fn stray(w: nat) -> nat {
    w % 3
}

/// The codes of the consonant classes in `elems`, in order: spaces and vowels
/// are never stored.
pub open spec fn consonants(elems: Seq<PhonehashElem>) -> Seq<u8>
    decreases elems.len(),
{
    if elems.len() == 0 {
        Seq::empty()
    } else {
        let prev = consonants(elems.drop_last());
        let c = elems.last().code();
        if c < 2 {
            prev
        } else {
            prev.push(c)
        }
    }
}

/// `s` with every run of equal neighbours reduced to one.
pub open spec fn collapse(s: Seq<u8>) -> Seq<u8>
    decreases s.len(),
{
    if s.len() == 0 {
        s
    } else {
        let prev = collapse(s.drop_last());
        if prev.len() > 0 && prev.last() == s.last() {
            prev
        } else {
            prev.push(s.last())
        }
    }
}

/// The codes that packing keeps from `elems` when capacity is no limit.
pub open spec fn stored(elems: Seq<PhonehashElem>) -> Seq<u8> {
    collapse(consonants(elems))
}

/// The codes that a fingerprint of width `w` captures from `elems`.
pub open spec fn captured(elems: Seq<PhonehashElem>, w: nat) -> Seq<u8> {
    let s = stored(elems);
    if s.len() <= capacity(w) {
        s
    } else {
        s.subrange(0, capacity(w) as int)
    }
}

/// The codes read as the digits of a base-8 number, first code most significant.
pub open spec fn horner(codes: Seq<u8>) -> nat
    decreases codes.len(),
{
    if codes.len() == 0 {
        0
    } else {
        horner(codes.drop_last()) * 8 + codes.last() as nat
    }
}

/// The finalized value of a width-`w` fingerprint holding `codes`: the codes
/// occupy the top bits, everything below them is zero.
pub open spec fn packed(codes: Seq<u8>, w: nat) -> nat {
    horner(codes) * pow2((w - 3 * codes.len()) as nat)
}

/// The value of the width-`w` fingerprint of a stream of phoneme classes.
pub open spec fn fingerprint_value(elems: Seq<PhonehashElem>, w: nat) -> nat {
    packed(captured(elems, w), w)
}

/// A value is finalized when its top three bits are not all zero.
pub open spec fn finalized(v: nat, w: nat) -> bool {
    v >= pow2((w - 3) as nat)
}

/// Every value that packing can produce is blank or finalized.
pub open spec fn blank_or_finalized(v: nat, w: nat) -> bool {
    v == 0 || finalized(v, w)
}

/// How far right a value is shifted to bring slot `index` to the bottom.
pub open spec fn slot_shift(w: nat, index: nat) -> nat {
    stray(w) + 3 * ((capacity(w) - index - 1) as nat)
}

/// The code held in slot `index` of a width-`w` value.
pub open spec fn slot(v: nat, w: nat, index: nat) -> u8 {
    ((v / pow2(slot_shift(w, index))) % 8) as u8
}

/// The all-ones value of width `w`.
pub open spec fn ones(w: nat) -> nat {
    (pow2(w) - 1) as nat
}

/// Enough right shifts by three to empty any `u128`.
pub const MASK_STEPS: u32 = 43;

/// The mask that, shifted right three bits at a time from `m` (at most `fuel`
/// times), first has no bit in common with `other`: it covers the padding
/// below `other`'s last code.
pub open spec fn tail_mask(other: u128, m: u128, fuel: nat) -> u128
    decreases fuel,
{
    if other & m == 0 || fuel == 0 {
        m
    } else {
        tail_mask(other, m >> 3, (fuel - 1) as nat)
    }
}

/// The prefix test: `v` lies in `[other, other | tail]`, the tail mask being
/// grown from the all-ones value `m`.
pub open spec fn prefix_range(v: u128, other: u128, m: u128) -> bool {
    other <= v && v <= (other | tail_mask(other, m, MASK_STEPS as nat))
}

pub proof fn lemma_pow2_128()
    ensures
        pow2(128) == u128::MAX as nat + 1,
        pow2(8) == 256,
        pow2(3) == 8,
{
    lemma2_to64();
    lemma2_to64_rest();
    lemma_pow2_adds(64, 64);
}

/// Powers of two grow with the exponent.
pub proof fn lemma_pow2_le(a: nat, b: nat)
    requires
        a <= b,
    ensures
        pow2(a) <= pow2(b),
{
    if a < b {
        lemma_pow2_strictly_increases(a, b);
    }
}

/// `2^k` as a `u128`.
pub fn pow2_u128(k: u32) -> (r: u128)
    requires
        k < 128,
    ensures
        r == pow2(k as nat),
{
    proof {
        lemma_pow2_128();
        lemma2_to64();
    }
    let mut r: u128 = 1;
    let mut i: u32 = 0;
    while i < k
        invariant
            i <= k,
            k < 128,
            r == pow2(i as nat),
        decreases k - i,
    {
        proof {
            lemma_pow2_unfold((i + 1) as nat);
            lemma_pow2_le((i + 1) as nat, 128);
            lemma_pow2_128();
            if i + 1 == 128 {
            } else {
                lemma_pow2_strictly_increases((i + 1) as nat, 128);
            }
        }
        r = r * 2;
        i = i + 1;
    }
    r
}

/// `a` is a prefix of `b`.
pub open spec fn is_prefix(a: Seq<u8>, b: Seq<u8>) -> bool {
    a.len() <= b.len() && forall|k: int| 0 <= k < a.len() ==> a[k] == b[k]
}

/// One more element either leaves the stored codes as they are or adds its own.
pub proof fn lemma_stored_step(elems: Seq<PhonehashElem>, i: int)
    requires
        0 <= i < elems.len(),
    ensures
        ({
            let s = stored(elems.subrange(0, i));
            let c = elems[i].code();
            stored(elems.subrange(0, i + 1)) == if c < 2 || (s.len() > 0 && s.last() == c) {
                s
            } else {
                s.push(c)
            }
        }),
        2 <= elems[i].code() < 8 || elems[i].code() < 2,
{
    let t = elems.subrange(0, i + 1);
    assert(t.drop_last() =~= elems.subrange(0, i));
    let q = consonants(elems.subrange(0, i));
    let c = elems[i].code();
    if c >= 2 {
        assert(q.push(c).drop_last() =~= q);
    }
}

/// The stored codes of a prefix of the stream are a prefix of its stored codes.
pub proof fn lemma_stored_prefix(elems: Seq<PhonehashElem>, i: int)
    requires
        0 <= i <= elems.len(),
    ensures
        is_prefix(stored(elems.subrange(0, i)), stored(elems)),
    decreases elems.len() - i,
{
    if i == elems.len() {
        assert(elems.subrange(0, i) =~= elems);
    } else {
        lemma_stored_step(elems, i);
        lemma_stored_prefix(elems, i + 1);
    }
}

/// Every stored code is a consonant code.
pub proof fn lemma_stored_codes(elems: Seq<PhonehashElem>)
    ensures
        forall|k: int| 0 <= k < stored(elems).len() ==> 2 <= #[trigger] stored(elems)[k] < 8,
    decreases elems.len(),
{
    if elems.len() > 0 {
        lemma_stored_codes(elems.drop_last());
        assert(elems.subrange(0, elems.len() - 1) =~= elems.drop_last());
        lemma_stored_step(elems, elems.len() - 1);
        assert(elems.subrange(0, elems.len() as int) =~= elems);
    }
}

/// Shifts `acc` left by `3 * remaining + stray(w)` bits: the finalization that
/// moves the captured codes to the top of the value.
pub fn shift_up(acc: u128, w: u32, remaining: u32) -> (r: u128)
    requires
        valid_width(w as nat),
        remaining <= capacity(w as nat),
        acc < pow2((3 * (capacity(w as nat) - remaining)) as nat),
    ensures
        r == acc * pow2((3 * remaining + stray(w as nat)) as nat),
        r < pow2(w as nat),
{
    let k: u32 = 3 * remaining + w % 3;
    let ghost base: nat = (3 * (capacity(w as nat) - remaining)) as nat;
    let mut r: u128 = acc;
    let mut j: u32 = 0;
    proof {
        lemma_pow2_128();
        lemma_pow2_le((base + k) as nat, w as nat);
        lemma_pow2_le(w as nat, 128);
        lemma2_to64();
    }
    while j < k
        invariant
            j <= k,
            base + k == w as nat,
            w <= 128,
            pow2(128) == u128::MAX as nat + 1,
            r == acc * pow2(j as nat),
            r < pow2((base + j) as nat),
        decreases k - j,
    {
        proof {
            lemma_pow2_unfold((j + 1) as nat);
            lemma_pow2_unfold((base + j + 1) as nat);
            lemma_mul_is_associative(acc as int, pow2(j as nat) as int, 2);
            lemma_pow2_le((base + j + 1) as nat, 128);
        }
        r = r * 2;
        j = j + 1;
    }
    r
}

/// Packs a stream of phoneme classes into a width-`w` value: spaces, vowels
/// and repeats of the last stored code are skipped, at most `capacity(w)`
/// codes are stored, and the result is finalized.
pub fn pack(elems: &Vec<PhonehashElem>, w: u32) -> (r: u128)
    requires
        valid_width(w as nat),
    ensures
        r as nat == fingerprint_value(elems@, w as nat),
        r < pow2(w as nat),
{
    let cap: u32 = w / 3;
    let mut acc: u128 = 0;
    let mut n: u32 = 0;
    let mut last: u8 = 0;
    let mut i: usize = 0;
    proof {
        lemma_pow2_128();
        lemma2_to64();
        assert(elems@.subrange(0, 0) =~= Seq::<PhonehashElem>::empty());
    }
    while i < elems.len() && n < cap
        invariant
            valid_width(w as nat),
            cap == capacity(w as nat),
            i <= elems.len(),
            n == stored(elems@.subrange(0, i as int)).len(),
            n <= cap,
            acc == horner(stored(elems@.subrange(0, i as int))),
            acc < pow2(3 * n as nat),
            last == (if n == 0 { 0u8 } else { stored(elems@.subrange(0, i as int)).last() }),
            pow2(128) == u128::MAX as nat + 1,
            pow2(3) == 8,
        decreases elems.len() - i,
    {
        let c = elems[i].to_code();
        let ghost s = stored(elems@.subrange(0, i as int));
        proof {
            lemma_stored_step(elems@, i as int);
        }
        if c >= 2 && c != last {
            proof {
                lemma_pow2_adds(3 * n as nat, 3);
                lemma_pow2_le((3 * n + 3) as nat, 128);
                assert(s.push(c).drop_last() =~= s);
            }
            acc = acc * 8 + c as u128;
            n = n + 1;
            last = c;
        }
        i = i + 1;
    }
    proof {
        let s = stored(elems@.subrange(0, i as int));
        lemma_stored_prefix(elems@, i as int);
        if i == elems.len() {
            assert(elems@.subrange(0, i as int) =~= elems@);
        } else {
            if stored(elems@).len() > cap {
                assert(stored(elems@).subrange(0, cap as int) =~= s);
            } else {
                assert(stored(elems@) =~= s);
            }
        }
        assert(captured(elems@, w as nat) == s);
        assert((3 * (cap - n) + stray(w as nat)) as nat == (w - 3 * n) as nat);
    }
    shift_up(acc, w, cap - n)
}

/// Tests whether a width-`w` value is finalized.
pub fn top_set(v: u128, w: u32) -> (r: bool)
    requires
        valid_width(w as nat),
    ensures
        r == finalized(v as nat, w as nat),
{
    v >= pow2_u128(w - 3)
}

/// Appends one class to an unfinalized accumulator, as packing does: spaces,
/// vowels, a repeat of the last code, and a value that is already finalized
/// leave it unchanged and give `false`.
pub fn append_code(v: u128, w: u32, elem: PhonehashElem) -> (r: (u128, bool))
    requires
        valid_width(w as nat),
        v < pow2(w as nat),
    ensures
        r.1 == !(elem.code() <= 1 || v % 8 == elem.code() as nat || finalized(v as nat, w as nat)),
        r.0 as nat == if r.1 { (v * 8 + elem.code()) as nat } else { v as nat },
        r.0 < pow2(w as nat),
{
    let c = elem.to_code();
    if c <= 1 || v % 8 == c as u128 || top_set(v, w) {
        return (v, false);
    }
    proof {
        lemma_pow2_128();
        lemma2_to64();
        lemma_pow2_adds((w - 3) as nat, 3);
        lemma_pow2_le(w as nat, 128);
    }
    (v * 8 + c as u128, true)
}

/// The class in slot `index` of a width-`w` value, if the slot exists.
pub fn code_at(v: u128, w: u32, index: u32) -> (r: Option<PhonehashElem>)
    requires
        valid_width(w as nat),
    ensures
        index >= capacity(w as nat) ==> r.is_none(),
        index < capacity(w as nat) ==> r == Some(PhonehashElem::from_code(slot(v as nat, w as nat, index as nat))),
{
    let cap: u32 = w / 3;
    if index >= cap {
        return None;
    }
    let shift: u32 = w % 3 + 3 * (cap - index - 1);
    let p = pow2_u128(shift);
    proof {
        lemma_pow2_pos(shift as nat);
    }
    let c = ((v / p) % 8) as u8;
    Some(PhonehashElem::from_bits(c))
}

/// The prefix test on raw values: `v` lies in `[other, other | tail]` where
/// the tail mask is shifted down from `m` until it misses every bit of `other`.
pub fn in_prefix_range(v: u128, other: u128, m: u128) -> (r: bool)
    ensures
        r == prefix_range(v, other, m),
{
    let mut mask: u128 = m;
    let mut fuel: u32 = MASK_STEPS;
    while other & mask != 0 && fuel > 0
        invariant
            tail_mask(other, mask, fuel as nat) == tail_mask(other, m, MASK_STEPS as nat),
        decreases fuel,
    {
        mask = mask >> 3;
        fuel = fuel - 1;
    }
    v >= other && v <= (other | mask)
}

/// The all-ones value of width `w`.
pub fn all_ones(w: u32) -> (r: u128)
    requires
        valid_width(w as nat),
    ensures
        r as nat == ones(w as nat),
{
    proof {
        lemma_pow2_128();
        lemma_pow2_pos(w as nat);
    }
    if w == 128 {
        u128::MAX
    } else {
        pow2_u128(w) - 1
    }
}

} // verus!
