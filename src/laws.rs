//! What holds of every fingerprint.
use vstd::prelude::*;
use vstd::arithmetic::power2::{pow2, lemma_pow2_adds, lemma2_to64};
use vstd::arithmetic::mul::lemma_mul_inequality;
use crate::elem::PhonehashElem;
use crate::packing::{
    blank_or_finalized, capacity, captured, collapse, consonants, fingerprint_value, horner,
    lemma_stored_codes, stored, valid_width,
};

verus! {

/// The stream with every space and vowel taken out.
pub open spec fn erase(elems: Seq<PhonehashElem>) -> Seq<PhonehashElem> {
    elems.filter(|e: PhonehashElem| e.code() >= 2)
}

proof fn lemma_consonants_erase(elems: Seq<PhonehashElem>)
    ensures
        consonants(erase(elems)) == consonants(elems),
    decreases elems.len(),
{
    reveal(Seq::filter);
    if elems.len() > 0 {
        lemma_consonants_erase(elems.drop_last());
        if elems.last().code() >= 2 {
            let e = erase(elems);
            assert(e.drop_last() =~= erase(elems.drop_last()));
        }
    }
}

proof fn lemma_collapse_idempotent(s: Seq<u8>)
    ensures
        collapse(collapse(s)) == collapse(s),
    decreases s.len(),
{
    if s.len() > 0 {
        let t = s.drop_last();
        lemma_collapse_idempotent(t);
        let ct = collapse(t);
        if !(ct.len() > 0 && ct.last() == s.last()) {
            assert(ct.push(s.last()).drop_last() =~= ct);
        }
    }
}

proof fn lemma_horner_lower(codes: Seq<u8>)
    requires
        codes.len() > 0,
        codes[0] >= 1,
    ensures
        horner(codes) >= pow2((3 * (codes.len() - 1)) as nat),
    decreases codes.len(),
{
    lemma2_to64();
    if codes.len() > 1 {
        let t = codes.drop_last();
        lemma_horner_lower(t);
        lemma_pow2_adds((3 * (t.len() - 1)) as nat, 3);
    } else {
        assert(codes.drop_last() =~= Seq::<u8>::empty());
    }
}

/// Spaces and vowels never reach a fingerprint: two streams of classes that
/// are equal once every space and vowel is taken out have the same
/// fingerprint, whatever spaces and vowels one has and the other lacks.
pub proof fn lemma_spaces_and_vowels_ignored(a: Seq<PhonehashElem>, b: Seq<PhonehashElem>, w: nat)
    requires
        erase(a) == erase(b),
    ensures
        fingerprint_value(a, w) == fingerprint_value(b, w),
{
    lemma_consonants_erase(a);
    lemma_consonants_erase(b);
}

/// Repeats collapse: a stream whose consonant classes repeat one another has
/// the fingerprint of a stream holding the same consonants with every run of
/// repeats reduced to one.
pub proof fn lemma_repeats_collapse(a: Seq<PhonehashElem>, b: Seq<PhonehashElem>, w: nat)
    requires
        consonants(b) == collapse(consonants(a)),
    ensures
        fingerprint_value(a, w) == fingerprint_value(b, w),
{
    lemma_collapse_idempotent(consonants(a));
}

/// Every fingerprint built from a stream is blank or finalized, so that
/// `Phonehash::from_raw` accepts its `raw` value and gives back the same
/// fingerprint.
pub proof fn lemma_fingerprint_blank_or_finalized(elems: Seq<PhonehashElem>, w: nat)
    requires
        valid_width(w),
    ensures
        blank_or_finalized(fingerprint_value(elems, w), w),
{
    let c = captured(elems, w);
    let n = c.len();
    lemma_stored_codes(elems);
    assert(n <= capacity(w));
    if n == 0 {
        assert(horner(c) == 0);
    } else {
        assert(c[0] == stored(elems)[0]);
        lemma_horner_lower(c);
        lemma_pow2_adds((3 * (n - 1)) as nat, (w - 3 * n) as nat);
        lemma_mul_inequality(
            pow2((3 * (n - 1)) as nat) as int,
            horner(c) as int,
            pow2((w - 3 * n) as nat) as int,
        );
    }
}

} // verus!
