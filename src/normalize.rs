//! Turning text into a stream of phoneme classes.
use vstd::prelude::*;
use crate::elem::PhonehashElem;

verus! {

/// The ASCII transliteration of a text, as bytes.
pub uninterp spec fn transliterated(s: Seq<char>) -> Seq<u8>;

/// Relies on `deunicode::deunicode_with_tofu` with an empty placeholder: each
/// character becomes its closest ASCII spelling, one without any becomes
/// nothing. The result depends on the text alone.
#[verifier::external_body]
fn transliterate(s: &str) -> (r: Vec<u8>)
    ensures
        r@ == transliterated(s@),
{
    deunicode::deunicode_with_tofu(s, "").into_bytes()
}

/// ASCII lower case.
pub open spec fn lower(b: u8) -> u8 {
    if 65u8 <= b && b <= 90u8 {  // 'A' 'Z'
        (b + 32) as u8
    } else {
        b
    }
}

/// What one byte of the transliteration becomes: digits and `$ % & +` are
/// spelled out between spaces, letters are lower-cased, anything else is a
/// space.
pub open spec fn spelled(b: u8) -> Seq<u8> {
    let c = lower(b);
    if c == 48u8 {  // '0'
        seq![32u8, 122u8, 101u8, 114u8, 111u8, 32u8]  // " zero "
    } else if c == 49u8 {  // '1'
        seq![32u8, 111u8, 110u8, 101u8, 32u8]  // " one "
    } else if c == 50u8 {  // '2'
        seq![32u8, 116u8, 119u8, 111u8, 32u8]  // " two "
    } else if c == 51u8 {  // '3'
        seq![32u8, 116u8, 104u8, 114u8, 101u8, 101u8, 32u8]  // " three "
    } else if c == 52u8 {  // '4'
        seq![32u8, 102u8, 111u8, 117u8, 114u8, 32u8]  // " four "
    } else if c == 53u8 {  // '5'
        seq![32u8, 102u8, 105u8, 118u8, 101u8, 32u8]  // " five "
    } else if c == 54u8 {  // '6'
        seq![32u8, 115u8, 105u8, 120u8, 32u8]  // " six "
    } else if c == 55u8 {  // '7'
        seq![32u8, 115u8, 101u8, 118u8, 101u8, 110u8, 32u8]  // " seven "
    } else if c == 56u8 {  // '8'
        seq![32u8, 101u8, 105u8, 103u8, 104u8, 116u8, 32u8]  // " eight "
    } else if c == 57u8 {  // '9'
        seq![32u8, 110u8, 105u8, 110u8, 101u8, 32u8]  // " nine "
    } else if c == 36u8 {  // '$'
        seq![32u8, 100u8, 111u8, 108u8, 108u8, 97u8, 114u8, 32u8]  // " dollar "
    } else if c == 37u8 {  // '%'
        seq![32u8, 112u8, 101u8, 114u8, 99u8, 101u8, 110u8, 116u8, 32u8]  // " percent "
    } else if c == 38u8 {  // '&'
        seq![32u8, 97u8, 110u8, 100u8, 32u8]  // " and "
    } else if c == 43u8 {  // '+'
        seq![32u8, 112u8, 108u8, 117u8, 115u8, 32u8]  // " plus "
    } else if 97u8 <= c && c <= 122u8 {  // 'a' 'z'
        seq![c]
    } else {
        seq![32u8]
    }
}

/// Every byte of `s` spelled out.
pub open spec fn expanded(s: Seq<u8>) -> Seq<u8>
    decreases s.len(),
{
    if s.len() == 0 {
        Seq::empty()
    } else {
        expanded(s.drop_last()) + spelled(s.last())
    }
}

/// The pronunciation rules, applied from the front with one or two bytes of
/// lookahead; `word_start` says whether a leading "kn" drops its "k".
pub open spec fn rewritten(s: Seq<u8>, word_start: bool) -> Seq<u8>
    decreases s.len(),
{
    if s.len() == 0 {
        Seq::empty()
    } else if s.len() >= 2 && s[0] == 112u8 && s[1] == 104u8 {  // 'p' 'h'
        seq![102u8] + rewritten(s.subrange(2, s.len() as int), false)
    } else if s.len() >= 2 && s[0] == 32u8 && s[1] == 32u8 {  // ' ' ' '
        rewritten(s.subrange(1, s.len() as int), false)
    } else if s.len() >= 2 && s[0] == 103u8 && s[1] == 104u8 {  // 'g' 'h'
        rewritten(s.subrange(2, s.len() as int), false)
    } else if word_start && s.len() >= 2 && s[0] == 107u8 && s[1] == 110u8 {  // 'k' 'n'
        seq![110u8] + rewritten(s.subrange(2, s.len() as int), false)
    } else if s.len() >= 3 && s[0] == 32u8 && s[1] == 107u8 && s[2] == 110u8 {  // ' ' 'k' 'n'
        seq![32u8] + rewritten(s.subrange(1, s.len() as int), true)
    } else {
        seq![s[0]] + rewritten(s.subrange(1, s.len() as int), false)
    }
}

/// The class of one rewritten byte; `h` has none.
pub open spec fn class_of(c: u8) -> Option<PhonehashElem> {
    if c == 32u8 {  // ' '
        Some(PhonehashElem::Space)
    } else if c == 97u8 || c == 101u8 || c == 105u8 || c == 111u8 || c == 117u8 || c == 121u8 {  // 'a' 'e' 'i' 'o' 'u' 'y'
        Some(PhonehashElem::A)
    } else if c == 98u8 || c == 100u8 || c == 116u8 || c == 112u8 {  // 'b' 'd' 't' 'p'
        Some(PhonehashElem::B)
    } else if c == 102u8 || c == 118u8 {  // 'f' 'v'
        Some(PhonehashElem::F)
    } else if c == 99u8 || c == 115u8 || c == 120u8 || c == 107u8 || c == 113u8 || c == 122u8 {  // 'c' 's' 'x' 'k' 'q' 'z'
        Some(PhonehashElem::S)
    } else if c == 103u8 || c == 106u8 {  // 'g' 'j'
        Some(PhonehashElem::G)
    } else if c == 109u8 || c == 110u8 {  // 'm' 'n'
        Some(PhonehashElem::M)
    } else if c == 108u8 || c == 114u8 || c == 119u8 {  // 'l' 'r' 'w'
        Some(PhonehashElem::W)
    } else {
        None
    }
}

/// The class of `c` as a sequence of zero or one classes.
pub open spec fn class_seq(c: u8) -> Seq<PhonehashElem> {
    match class_of(c) {
        Some(e) => seq![e],
        None => Seq::empty(),
    }
}

/// The classes of the bytes of `s`, in order.
pub open spec fn classes(s: Seq<u8>) -> Seq<PhonehashElem>
    decreases s.len(),
{
    if s.len() == 0 {
        Seq::empty()
    } else {
        class_seq(s[0]) + classes(s.drop_first())
    }
}

/// The phoneme classes of a transliterated text.
pub open spec fn elements_of(t: Seq<u8>) -> Seq<PhonehashElem> {
    classes(rewritten(expanded(t), true))
}

/// The phoneme classes of a text.
pub open spec fn text_elements(s: Seq<char>) -> Seq<PhonehashElem> {
    elements_of(transliterated(s))
}

proof fn lemma_classes_cons(x: u8, rest: Seq<u8>)
    ensures
        classes(seq![x] + rest) == class_seq(x) + classes(rest),
{
    let s = seq![x] + rest;
    assert(s[0] == x);
    assert(s.drop_first() =~= rest);
}

fn spell(b: u8) -> (r: Vec<u8>)
    ensures
        r@ == spelled(b),
{
    let c: u8 = if 65u8 <= b && b <= 90u8 {  // 'A' 'Z'
        b + 32
    } else {
        b
    };
    if c == 48u8 {  // '0'
        vec![32u8, 122u8, 101u8, 114u8, 111u8, 32u8]  // " zero "
    } else if c == 49u8 {  // '1'
        vec![32u8, 111u8, 110u8, 101u8, 32u8]  // " one "
    } else if c == 50u8 {  // '2'
        vec![32u8, 116u8, 119u8, 111u8, 32u8]  // " two "
    } else if c == 51u8 {  // '3'
        vec![32u8, 116u8, 104u8, 114u8, 101u8, 101u8, 32u8]  // " three "
    } else if c == 52u8 {  // '4'
        vec![32u8, 102u8, 111u8, 117u8, 114u8, 32u8]  // " four "
    } else if c == 53u8 {  // '5'
        vec![32u8, 102u8, 105u8, 118u8, 101u8, 32u8]  // " five "
    } else if c == 54u8 {  // '6'
        vec![32u8, 115u8, 105u8, 120u8, 32u8]  // " six "
    } else if c == 55u8 {  // '7'
        vec![32u8, 115u8, 101u8, 118u8, 101u8, 110u8, 32u8]  // " seven "
    } else if c == 56u8 {  // '8'
        vec![32u8, 101u8, 105u8, 103u8, 104u8, 116u8, 32u8]  // " eight "
    } else if c == 57u8 {  // '9'
        vec![32u8, 110u8, 105u8, 110u8, 101u8, 32u8]  // " nine "
    } else if c == 36u8 {  // '$'
        vec![32u8, 100u8, 111u8, 108u8, 108u8, 97u8, 114u8, 32u8]  // " dollar "
    } else if c == 37u8 {  // '%'
        vec![32u8, 112u8, 101u8, 114u8, 99u8, 101u8, 110u8, 116u8, 32u8]  // " percent "
    } else if c == 38u8 {  // '&'
        vec![32u8, 97u8, 110u8, 100u8, 32u8]  // " and "
    } else if c == 43u8 {  // '+'
        vec![32u8, 112u8, 108u8, 117u8, 115u8, 32u8]  // " plus "
    } else if 97u8 <= c && c <= 122u8 {  // 'a' 'z'
        vec![c]
    } else {
        vec![32u8]
    }
}

/// Spells out every byte, as `expanded`.
fn expand(t: &Vec<u8>) -> (r: Vec<u8>)
    ensures
        r@ == expanded(t@),
{
    let mut out: Vec<u8> = Vec::new();
    let mut i: usize = 0;
    proof {
        assert(t@.subrange(0, 0) =~= Seq::<u8>::empty());
    }
    while i < t.len()
        invariant
            i <= t.len(),
            out@ == expanded(t@.subrange(0, i as int)),
        decreases t.len() - i,
    {
        let mut word = spell(t[i]);
        proof {
            assert(t@.subrange(0, i + 1).drop_last() =~= t@.subrange(0, i as int));
        }
        out.append(&mut word);
        i = i + 1;
    }
    proof {
        assert(t@.subrange(0, t.len() as int) =~= t@);
    }
    out
}

fn class_of_byte(c: u8) -> (r: Option<PhonehashElem>)
    ensures
        r == class_of(c),
{
    if c == 32u8 {  // ' '
        Some(PhonehashElem::Space)
    } else if c == 97u8 || c == 101u8 || c == 105u8 || c == 111u8 || c == 117u8 || c == 121u8 {  // 'a' 'e' 'i' 'o' 'u' 'y'
        Some(PhonehashElem::A)
    } else if c == 98u8 || c == 100u8 || c == 116u8 || c == 112u8 {  // 'b' 'd' 't' 'p'
        Some(PhonehashElem::B)
    } else if c == 102u8 || c == 118u8 {  // 'f' 'v'
        Some(PhonehashElem::F)
    } else if c == 99u8 || c == 115u8 || c == 120u8 || c == 107u8 || c == 113u8 || c == 122u8 {  // 'c' 's' 'x' 'k' 'q' 'z'
        Some(PhonehashElem::S)
    } else if c == 103u8 || c == 106u8 {  // 'g' 'j'
        Some(PhonehashElem::G)
    } else if c == 109u8 || c == 110u8 {  // 'm' 'n'
        Some(PhonehashElem::M)
    } else if c == 108u8 || c == 114u8 || c == 119u8 {  // 'l' 'r' 'w'
        Some(PhonehashElem::W)
    } else {
        None
    }
}

fn push_class(out: &mut Vec<PhonehashElem>, c: u8)
    ensures
        final(out)@ == old(out)@ + class_seq(c),
{
    match class_of_byte(c) {
        Some(e) => {
            out.push(e);
        },
        None => {
            assert(old(out)@ + class_seq(c) =~= old(out)@);
        },
    }
}

/// Applies the pronunciation rules to spelled-out bytes and maps the result
/// to classes, as `classes(rewritten(b, true))`.
fn rewrite_classes(b: &Vec<u8>) -> (r: Vec<PhonehashElem>)
    ensures
        r@ == classes(rewritten(b@, true)),
{
    let n = b.len();
    let mut out: Vec<PhonehashElem> = Vec::new();
    let mut i: usize = 0;
    let mut word_start: bool = true;
    proof {
        assert(b@.subrange(0, n as int) =~= b@);
    }
    while i < n
        invariant
            n == b.len(),
            i <= n,
            out@ + classes(rewritten(b@.subrange(i as int, n as int), word_start)) == classes(
                rewritten(b@, true),
            ),
        decreases n - i,
    {
        let ghost rest = b@.subrange(i as int, n as int);
        let ghost before = out@;
        let x = b[i];
        let has1 = i + 1 < n;
        let y: u8 = if has1 {
            b[i + 1]
        } else {
            0
        };
        let has2 = n - i > 2;
        let z: u8 = if has2 {
            b[i + 2]
        } else {
            0
        };
        proof {
            assert(rest.subrange(1, rest.len() as int) =~= b@.subrange(i + 1, n as int));
            if has1 {
                assert(rest.subrange(2, rest.len() as int) =~= b@.subrange(i + 2, n as int));
            }
        }
        if has1 && x == 112u8 && y == 104u8 {  // 'p' 'h'
            push_class(&mut out, 102u8);
            proof {
                lemma_classes_cons(102u8, rewritten(b@.subrange(i + 2, n as int), false));
                assert(out@ + classes(rewritten(b@.subrange(i + 2, n as int), false)) =~= before
                    + classes(rewritten(rest, word_start)));
            }
            i = i + 2;
            word_start = false;
        } else if has1 && x == 32u8 && y == 32u8 {  // ' ' ' '
            i = i + 1;
            word_start = false;
        } else if has1 && x == 103u8 && y == 104u8 {  // 'g' 'h'
            i = i + 2;
            word_start = false;
        } else if word_start && has1 && x == 107u8 && y == 110u8 {  // 'k' 'n'
            push_class(&mut out, 110u8);
            proof {
                lemma_classes_cons(110u8, rewritten(b@.subrange(i + 2, n as int), false));
                assert(out@ + classes(rewritten(b@.subrange(i + 2, n as int), false)) =~= before
                    + classes(rewritten(rest, word_start)));
            }
            i = i + 2;
            word_start = false;
        } else if has2 && x == 32u8 && y == 107u8 && z == 110u8 {  // ' ' 'k' 'n'
            push_class(&mut out, 32u8);
            proof {
                lemma_classes_cons(32u8, rewritten(b@.subrange(i + 1, n as int), true));
                assert(out@ + classes(rewritten(b@.subrange(i + 1, n as int), true)) =~= before
                    + classes(rewritten(rest, word_start)));
            }
            i = i + 1;
            word_start = true;
        } else {
            push_class(&mut out, x);
            proof {
                lemma_classes_cons(x, rewritten(b@.subrange(i + 1, n as int), false));
                assert(out@ + classes(rewritten(b@.subrange(i + 1, n as int), false)) =~= before
                    + classes(rewritten(rest, word_start)));
            }
            i = i + 1;
            word_start = false;
        }
    }
    proof {
        assert(b@.subrange(n as int, n as int) =~= Seq::<u8>::empty());
        assert(out@ + Seq::<PhonehashElem>::empty() =~= out@);
    }
    out
}

/// The phoneme classes of a text: transliterated to ASCII, digits and a few
/// symbols spelled out, lower-cased, rewritten by the pronunciation rules, and
/// mapped to classes.
pub fn phonehash_elements(s: &str) -> (r: Vec<PhonehashElem>)
    ensures
        r@ == text_elements(s@),
{
    let t = transliterate(s);
    let b = expand(&t);
    rewrite_classes(&b)
}

} // verus!
