//! Why the prefix test on packed values is a prefix test on their codes.
use vstd::prelude::*;
use vstd::arithmetic::power2::{pow2, lemma_pow2_adds, lemma_pow2_pos, lemma_pow2_unfold, lemma2_to64};
use vstd::arithmetic::div_mod::{lemma_fundamental_div_mod, lemma_fundamental_div_mod_converse, lemma_div_by_multiple, lemma_mod_multiples_basic};
use vstd::bits::lemma_u128_shr_is_div;
use crate::elem::PhonehashElem;
use crate::packing::{
    capacity, captured, fingerprint_value, horner, is_prefix, lemma_pow2_128, lemma_pow2_le,
    lemma_stored_codes, ones, packed, prefix_range, stored, tail_mask, valid_width, MASK_STEPS,
};

verus! {

proof fn lemma_shl_is_mul(y: u128, r: u128)
    requires
        r < 128,
        y * pow2(r as nat) <= u128::MAX,
    ensures
        y << r == y * pow2(r as nat),
    decreases r,
{
    lemma2_to64();
    if r == 0 {
        assert(y << 0u128 == y) by (bit_vector);
        assert(y * pow2(0) == y);
        assert(y << r == y * pow2(r as nat));
    } else {
        let r1 = (r - 1) as u128;
        let half_pow = pow2(r1 as nat);
        lemma_pow2_unfold(r as nat);
        lemma_pow2_pos(r1 as nat);
        assert(y * pow2(r as nat) == 2 * (y * half_pow)) by (nonlinear_arith)
            requires
                pow2(r as nat) == 2 * half_pow,
        ;
        assert(y * half_pow <= y * pow2(r as nat)) by (nonlinear_arith)
            requires
                pow2(r as nat) == 2 * half_pow,
                half_pow > 0,
        ;
        lemma_shl_is_mul(y, r1);
        let z = y << r1;
        lemma_u128_shr_is_div(u128::MAX, 1);
        assert(z + z <= u128::MAX);
        assert(z <= (u128::MAX >> 1u128));
        assert(z << 1u128 == z + z) by (bit_vector)
            requires
                z <= (u128::MAX >> 1u128),
        ;
        assert(y << r == (y << r1) << 1u128) by (bit_vector)
            requires
                r1 < 127,
                r == r1 + 1,
        ;
        assert(y << r == z + z);
        assert(z == y * half_pow);
        assert(y << r == y * pow2(r as nat));
    }
}

/// The mask of the low `t` bits, as the prefix test grows it.
pub open spec fn low_mask(t: nat) -> u128 {
    u128::MAX >> ((128 - t) as u128)
}

proof fn lemma_low_mask_value(t: nat)
    requires
        t <= 128,
    ensures
        low_mask(t) as nat == pow2(t) - 1,
        t == 128 ==> low_mask(t) == u128::MAX,
{
    lemma_pow2_128();
    lemma_pow2_pos(t);
    if t == 128 {
        assert(u128::MAX >> 0u128 == u128::MAX) by (bit_vector);
    } else if t == 0 {
        assert(u128::MAX >> 128u128 == 0) by (bit_vector);
        lemma2_to64();
    } else {
        let s = (128 - t) as nat;
        lemma_u128_shr_is_div(u128::MAX, s as u128);
        lemma_pow2_adds(t, s);
        lemma_pow2_pos(s);
        let q = pow2(t) - 1;
        let d = pow2(s);
        assert(u128::MAX as int == q * d + (d - 1)) by (nonlinear_arith)
            requires
                pow2(t) * d == u128::MAX + 1,
                q == pow2(t) - 1,
        ;
        lemma_fundamental_div_mod_converse(u128::MAX as int, d as int, q as int, d - 1);
    }
}

proof fn lemma_low_mask_zero(x: u128, t: nat)
    requires
        t <= 128,
    ensures
        (x & low_mask(t) == 0) <==> x as nat % pow2(t) == 0,
{
    lemma_pow2_128();
    lemma_pow2_pos(t);
    if t == 128 {
        lemma_low_mask_value(t);
        assert(x & u128::MAX == x) by (bit_vector);
        lemma_fundamental_div_mod_converse(x as int, pow2(t) as int, 0, x as int);
    } else {
        let r = t as u128;
        let s = (128 - t) as u128;
        assert((x & (u128::MAX >> s) == 0) <==> ((x >> r) << r == x)) by (bit_vector)
            requires
                r + s == 128,
                s >= 1,
        ;
        lemma_u128_shr_is_div(x, r);
        let q = x >> r;
        lemma_fundamental_div_mod(x as int, pow2(t) as int);
        assert(q * pow2(t) <= x) by (nonlinear_arith)
            requires
                x == pow2(t) * q + x as nat % pow2(t),
                x as nat % pow2(t) >= 0,
        ;
        lemma_shl_is_mul(q, r);
    }
}

proof fn lemma_horner_bound(s: Seq<u8>)
    requires
        forall|i: int| 0 <= i < s.len() ==> s[i] < 8,
    ensures
        horner(s) < pow2(3 * s.len()),
    decreases s.len(),
{
    lemma2_to64();
    if s.len() > 0 {
        let t = s.drop_last();
        lemma_horner_bound(t);
        lemma_pow2_adds(3 * t.len(), 3);
    }
}

proof fn lemma_horner_last(s: Seq<u8>)
    requires
        s.len() > 0,
        s.last() < 8,
    ensures
        horner(s) % 8 == s.last(),
        horner(s) / 8 == horner(s.drop_last()),
{
    lemma_fundamental_div_mod_converse(horner(s) as int, 8, horner(s.drop_last()) as int, s.last() as int);
}

proof fn lemma_horner_split(s: Seq<u8>, k: int)
    requires
        0 <= k <= s.len(),
    ensures
        horner(s) == horner(s.subrange(0, k)) * pow2((3 * (s.len() - k)) as nat) + horner(
            s.subrange(k, s.len() as int),
        ),
    decreases s.len(),
{
    lemma2_to64();
    if k == s.len() {
        assert(s.subrange(0, k) =~= s);
        assert(s.subrange(k, s.len() as int) =~= Seq::<u8>::empty());
        assert(horner(Seq::<u8>::empty()) == 0);
        assert(pow2((3 * (s.len() - k)) as nat) == 1);
        assert(horner(s) * 1 == horner(s));
    } else {
        let t = s.drop_last();
        lemma_horner_split(t, k);
        assert(t.subrange(0, k) =~= s.subrange(0, k));
        let tail = s.subrange(k, s.len() as int);
        assert(tail.drop_last() =~= t.subrange(k, t.len() as int));
        let e = (3 * (t.len() - k)) as nat;
        lemma_pow2_adds(e, 3);
        assert(horner(s) == horner(t) * 8 + s.last());
        assert(tail.last() == s.last());
        assert(horner(tail) == horner(t.subrange(k, t.len() as int)) * 8 + s.last());
        assert(pow2((3 * (s.len() - k)) as nat) == pow2(e) * 8);
        let a = horner(s.subrange(0, k));
        let b = horner(t.subrange(k, t.len() as int));
        assert((a * pow2(e) + b) * 8 + s.last() == a * (pow2(e) * 8) + (b * 8 + s.last()))
            by (nonlinear_arith);
    }
}

proof fn lemma_horner_injective(s: Seq<u8>, t: Seq<u8>)
    requires
        s.len() == t.len(),
        forall|i: int| 0 <= i < s.len() ==> s[i] < 8,
        forall|i: int| 0 <= i < t.len() ==> t[i] < 8,
        horner(s) == horner(t),
    ensures
        s == t,
    decreases s.len(),
{
    if s.len() == 0 {
        assert(s =~= t);
    } else {
        lemma_horner_last(s);
        lemma_horner_last(t);
        lemma_horner_injective(s.drop_last(), t.drop_last());
        assert(s =~= t.drop_last().push(t.last()));
        assert(t =~= t.drop_last().push(t.last()));
    }
}

/// `8^e` for `e > 0` leaves remainder 0 only on multiples of 8.
proof fn lemma_mod_pow8(h: nat, e: nat)
    requires
        e > 0,
        h % 8 != 0,
    ensures
        h % pow2(3 * e) != 0,
{
    lemma2_to64();
    lemma_pow2_adds(3, (3 * e - 3) as nat);
    lemma_pow2_pos((3 * e - 3) as nat);
    let q = pow2(3 * e);
    let q1 = pow2((3 * e - 3) as nat);
    lemma_fundamental_div_mod(h as int, q as int);
    if h % q == 0 {
        assert(h == 8 * (q1 * (h / q)) + 0) by (nonlinear_arith)
            requires
                h == q * (h / q) + h % q,
                h % q == 0,
                q == 8 * q1,
        ;
        lemma_fundamental_div_mod_converse(h as int, 8, (q1 * (h / q)) as int, 0);
    }
}

proof fn lemma_tail_mask_steps(b: u128, w: nat, k: nat, j: nat)
    requires
        valid_width(w),
        1 <= k <= capacity(w),
        j <= k,
        forall|jj: nat| j <= jj < k ==> (b as nat) % #[trigger] pow2((w - 3 * jj) as nat) != 0,
        (b as nat) % pow2((w - 3 * k) as nat) == 0,
    ensures
        tail_mask(b, low_mask((w - 3 * j) as nat), (MASK_STEPS - j) as nat) == low_mask(
            (w - 3 * k) as nat,
        ),
    decreases k - j,
{
    let m = low_mask((w - 3 * j) as nat);
    lemma_low_mask_zero(b, (w - 3 * j) as nat);
    if j < k {
        let s = (128 - (w - 3 * j)) as u128;
        assert((u128::MAX >> s) >> 3u128 == u128::MAX >> (s + 3)) by (bit_vector)
            requires
                s <= 125,
        ;
        assert(m >> 3u128 == low_mask((w - 3 * (j + 1)) as nat));
        lemma_tail_mask_steps(b, w, k, j + 1);
    }
}

/// Prefix containment: for two fingerprints of one width holding the codes
/// `ca` and `cb`, the prefix test of the first against the second holds
/// exactly when `cb` is a prefix of `ca`.
pub proof fn lemma_starts_with_is_prefix(ca: Seq<u8>, cb: Seq<u8>, w: nat)
    requires
        valid_width(w),
        ca.len() <= capacity(w),
        cb.len() <= capacity(w),
        forall|i: int| 0 <= i < ca.len() ==> 2 <= #[trigger] ca[i] < 8,
        forall|i: int| 0 <= i < cb.len() ==> 2 <= #[trigger] cb[i] < 8,
    ensures
        packed(ca, w) < pow2(w),
        packed(cb, w) < pow2(w),
        prefix_range(packed(ca, w) as u128, packed(cb, w) as u128, ones(w) as u128) == is_prefix(
            cb,
            ca,
        ),
{
    lemma_pow2_128();
    lemma_pow2_le(w, 128);
    let n = ca.len();
    let k = cb.len();
    let ha = horner(ca);
    let hb = horner(cb);
    lemma_horner_bound(ca);
    lemma_horner_bound(cb);
    lemma_pow2_adds(3 * n, (w - 3 * n) as nat);
    lemma_pow2_adds(3 * k, (w - 3 * k) as nat);
    lemma_pow2_pos((w - 3 * n) as nat);
    lemma_pow2_pos((w - 3 * k) as nat);
    assert(ha * pow2((w - 3 * n) as nat) < pow2(w)) by (nonlinear_arith)
        requires
            ha < pow2(3 * n),
            pow2(3 * n) * pow2((w - 3 * n) as nat) == pow2(w),
            pow2((w - 3 * n) as nat) > 0,
    ;
    assert(hb * pow2((w - 3 * k) as nat) < pow2(w)) by (nonlinear_arith)
        requires
            hb < pow2(3 * k),
            pow2(3 * k) * pow2((w - 3 * k) as nat) == pow2(w),
            pow2((w - 3 * k) as nat) > 0,
    ;
    let a = packed(ca, w) as u128;
    let b = packed(cb, w) as u128;
    lemma_low_mask_value(w);
    assert(ones(w) as u128 == low_mask(w));
    if k == 0 {
        assert(hb == 0);
        assert(hb * pow2(w) == 0);
        assert(packed(cb, w) == hb * pow2(w));
        assert(packed(cb, w) == 0);
        assert(b == 0);
        assert(0u128 & low_mask(w) == 0) by (bit_vector);
        assert(0u128 | low_mask(w) == low_mask(w)) by (bit_vector);
    } else {
        let t = (w - 3 * k) as nat;
        let p = pow2(t);
        lemma_horner_last(cb);
        // the tail mask is the mask below the last code of `cb`
        assert forall|jj: nat| 0 <= jj < k implies (b as nat) % #[trigger] pow2((w - 3 * jj) as nat) != 0 by {
            let e = (k - jj) as nat;
            lemma_pow2_adds(t, 3 * e);
            lemma_mod_pow8(hb, e);
            let q = pow2(3 * e);
            lemma_pow2_pos(3 * e);
            assert(p * q > 0) by (nonlinear_arith)
                requires
                    p > 0,
                    q > 0,
            ;
            lemma_fundamental_div_mod(b as int, (p * q) as int);
            if (b as nat) % (p * q) == 0 {
                let c = (b as nat) / (p * q);
                assert(hb == q * c) by (nonlinear_arith)
                    requires
                        b == hb * p,
                        b == (p * q) * c + 0,
                        p > 0,
                ;
                lemma_mod_multiples_basic(c as int, q as int);
                assert(hb % q == 0) by (nonlinear_arith)
                    requires
                        hb == q * c,
                        (c as int * q as int) % (q as int) == 0,
                ;
            }
        }
        lemma_mod_multiples_basic(hb as int, p as int);
        lemma_tail_mask_steps(b, w, k, 0);
        assert(tail_mask(b, low_mask(w), MASK_STEPS as nat) == low_mask(t));
        let m = low_mask(t);
        lemma_low_mask_value(t);
        lemma_low_mask_zero(b, t);
        assert(b | m == b + m) by (bit_vector)
            requires
                b & m == 0,
        ;
        // the range test is a test on the codes above the mask
        lemma_fundamental_div_mod(a as int, p as int);
        let qa = (a as nat) / p;
        if n >= k {
            lemma_horner_split(ca, k as int);
            let hp = horner(ca.subrange(0, k as int));
            let rest = ca.subrange(k as int, n as int);
            lemma_horner_bound(rest);
            let u = (w - 3 * n) as nat;
            lemma_pow2_adds(3 * (n - k) as nat, u);
            assert(a == hp * p + horner(rest) * pow2(u)) by (nonlinear_arith)
                requires
                    a == ha * pow2(u),
                    ha == hp * pow2((3 * (n - k)) as nat) + horner(rest),
                    pow2((3 * (n - k)) as nat) * pow2(u) == p,
            ;
            assert(horner(rest) * pow2(u) < p) by (nonlinear_arith)
                requires
                    horner(rest) < pow2((3 * (n - k)) as nat),
                    pow2((3 * (n - k)) as nat) * pow2(u) == p,
                    pow2(u) > 0,
            ;
            lemma_fundamental_div_mod_converse(a as int, p as int, hp as int, (horner(rest) * pow2(u)) as int);
            if hp == hb {
                lemma_horner_injective(ca.subrange(0, k as int), cb);
                assert(is_prefix(cb, ca));
            } else {
                if is_prefix(cb, ca) {
                    assert(ca.subrange(0, k as int) =~= cb);
                }
            }
            assert(b <= a && a <= b + m <==> qa == hb) by (nonlinear_arith)
                requires
                    b == hb * p,
                    a == p * qa + (a as nat) % p,
                    0 <= (a as nat) % p < p,
                    m == p - 1,
            ;
        } else {
            let e = (k - n) as nat;
            lemma_pow2_adds(3 * e, t);
            lemma_pow2_adds(3, (3 * e - 3) as nat);
            lemma2_to64();
            let g = ha * pow2(3 * e);
            assert(a == g * p) by (nonlinear_arith)
                requires
                    a == ha * pow2((w - 3 * n) as nat),
                    pow2((w - 3 * n) as nat) == pow2(3 * e) * p,
                    g == ha * pow2(3 * e),
            ;
            lemma_div_by_multiple(g as int, p as int);
            assert(g == 8 * (ha * pow2((3 * e - 3) as nat)) + 0) by (nonlinear_arith)
                requires
                    g == ha * pow2(3 * e),
                    pow2(3 * e) == 8 * pow2((3 * e - 3) as nat),
            ;
            lemma_fundamental_div_mod_converse(g as int, 8, (ha * pow2((3 * e - 3) as nat)) as int, 0);
            assert(qa != hb);
            assert(b <= a && a <= b + m <==> qa == hb) by (nonlinear_arith)
                requires
                    b == hb * p,
                    a == p * qa + (a as nat) % p,
                    0 <= (a as nat) % p < p,
                    m == p - 1,
            ;
        }
    }
}

/// Prefix containment of fingerprints: the fingerprint of the stream `a`
/// starts with that of the stream `b` (as `Phonehash::starts_with` tests it)
/// exactly when the codes captured from `b` begin the codes captured from `a`.
pub proof fn lemma_fingerprint_starts_with(a: Seq<PhonehashElem>, b: Seq<PhonehashElem>, w: nat)
    requires
        valid_width(w),
    ensures
        prefix_range(
            fingerprint_value(a, w) as u128,
            fingerprint_value(b, w) as u128,
            ones(w) as u128,
        ) == is_prefix(captured(b, w), captured(a, w)),
{
    lemma_stored_codes(a);
    lemma_stored_codes(b);
    let ca = captured(a, w);
    let cb = captured(b, w);
    assert forall|i: int| 0 <= i < ca.len() implies 2 <= #[trigger] ca[i] < 8 by {
        assert(ca[i] == stored(a)[i]);
    }
    assert forall|i: int| 0 <= i < cb.len() implies 2 <= #[trigger] cb[i] < 8 by {
        assert(cb[i] == stored(b)[i]);
    }
    lemma_starts_with_is_prefix(ca, cb, w);
}

} // verus!
