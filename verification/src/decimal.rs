//! Exact comparison of non-negative decimal numerals such as `10`, `0.95` or `007.50`.
use vstd::prelude::*;
use crate::text::{
    collect_chars, digit_val, digits_value, is_digit, run_end, run_end_exec, CharClass,
    lemma_run_end,
};

verus! {

pub open spec fn pow10(n: nat) -> nat
    decreases n,
{
    if n == 0 {
        1
    } else {
        10 * pow10((n - 1) as nat)
    }
}

pub open spec fn all_digits(s: Seq<char>) -> bool {
    forall|i: int| 0 <= i < s.len() ==> is_digit(#[trigger] s[i])
}

pub open spec fn zeros(n: nat) -> Seq<char> {
    Seq::new(n, |i: int| '0')
}

/// Index of the first `.` (the length when there is none).
pub open spec fn dot_pos(s: Seq<char>) -> int {
    run_end(s, 0, CharClass::NotChar('.'))
}

/// The digits before the point.
pub open spec fn whole_digits(s: Seq<char>) -> Seq<char> {
    s.take(dot_pos(s))
}

/// The digits after the point (none when there is no point).
pub open spec fn frac_digits(s: Seq<char>) -> Seq<char> {
    if dot_pos(s) < s.len() {
        s.skip(dot_pos(s) + 1)
    } else {
        Seq::empty()
    }
}

/// Digits, optionally followed by a point and more digits.
pub open spec fn numeral(s: Seq<char>) -> bool {
    &&& whole_digits(s).len() > 0
    &&& all_digits(whole_digits(s))
    &&& all_digits(frac_digits(s))
    &&& dot_pos(s) < s.len() ==> frac_digits(s).len() > 0
}

/// The value of a numeral times `10^k`, for `k` at least its number of fraction digits.
pub open spec fn scaled(s: Seq<char>, k: nat) -> nat {
    digits_value(whole_digits(s)) * pow10(k) + digits_value(frac_digits(s)) * pow10(
        (k - frac_digits(s).len()) as nat,
    )
}

/// Whether numeral `a` denotes a greater number than numeral `b` (false when
/// either is not a numeral).
pub open spec fn dec_gt(a: Seq<char>, b: Seq<char>) -> bool {
    let k = if frac_digits(a).len() >= frac_digits(b).len() {
        frac_digits(a).len()
    } else {
        frac_digits(b).len()
    };
    numeral(a) && numeral(b) && scaled(a, k) > scaled(b, k)
}

// ───────────────────────────── lemmas ─────────────────────────────

pub proof fn lemma_pow10_pos(n: nat)
    ensures
        pow10(n) >= 1,
    decreases n,
{
    if n > 0 {
        lemma_pow10_pos((n - 1) as nat);
    }
}

pub proof fn lemma_pow10_add(m: nat, n: nat)
    ensures
        pow10(m + n) == pow10(m) * pow10(n),
    decreases n,
{
    if n == 0 {
        assert(m + n == m);
        assert(pow10(0) == 1);
        assert(pow10(m) * 1 == pow10(m)) by (nonlinear_arith);
    } else {
        let n1 = (n - 1) as nat;
        lemma_pow10_add(m, n1);
        assert((m + n - 1) as nat == m + n1);
        assert(pow10(m + n) == 10 * pow10(m + n1));
        assert(pow10(n) == 10 * pow10(n1));
        let a = pow10(m);
        let b = pow10(n1);
        assert(10 * (a * b) == a * (10 * b)) by (nonlinear_arith);
    }
}

/// Scaling a numeral by more digits multiplies its scaled value by the extra power of ten.
pub proof fn lemma_scaled_shift(x: Seq<char>, k1: nat, k2: nat)
    requires
        frac_digits(x).len() <= k1 <= k2,
    ensures
        scaled(x, k2) == scaled(x, k1) * pow10((k2 - k1) as nat),
{
    let f = frac_digits(x).len();
    let d = (k2 - k1) as nat;
    lemma_pow10_add(k1, d);
    lemma_pow10_add((k1 - f) as nat, d);
    assert((k1 + d) as nat == k2);
    assert(((k1 - f) as nat + d) as nat == (k2 - f) as nat);
    let w = digits_value(whole_digits(x));
    let v = digits_value(frac_digits(x));
    let p1 = pow10(k1);
    let q1 = pow10((k1 - f) as nat);
    let e = pow10(d);
    assert(w * (p1 * e) + v * (q1 * e) == (w * p1 + v * q1) * e) by (nonlinear_arith);
}

/// The value of `u + v` is that of `u` shifted by the length of `v`, plus that of `v`.
pub proof fn lemma_digits_concat(u: Seq<char>, v: Seq<char>)
    ensures
        digits_value(u + v) == digits_value(u) * pow10(v.len()) + digits_value(v),
    decreases v.len(),
{
    if v.len() == 0 {
        assert(u + v =~= u);
        assert(digits_value(v) == 0);
        assert(pow10(0) == 1);
        assert(digits_value(u) * 1 == digits_value(u));
    } else {
        let w = v.drop_last();
        assert((u + v).drop_last() =~= u + w);
        assert((u + v).last() == v.last());
        lemma_digits_concat(u, w);
        let a = digits_value(u);
        let p = pow10(w.len());
        let b = digits_value(w);
        let d = digit_val(v.last());
        assert(digits_value(u + v) == digits_value(u + w) * 10 + d);
        assert(digits_value(v) == b * 10 + d);
        assert(pow10(v.len()) == 10 * p);
        assert((a * p + b) * 10 + d == a * (10 * p) + (b * 10 + d)) by (nonlinear_arith);
        assert(digits_value(u + v) == a * pow10(v.len()) + digits_value(v));
    }
}

pub proof fn lemma_digits_bound(v: Seq<char>)
    requires
        all_digits(v),
    ensures
        digits_value(v) < pow10(v.len()),
    decreases v.len(),
{
    if v.len() > 0 {
        let w = v.drop_last();
        assert(all_digits(w)) by {
            assert forall|i: int| 0 <= i < w.len() implies is_digit(#[trigger] w[i]) by {
                assert(w[i] == v[i]);
            }
        }
        lemma_digits_bound(w);
        assert(is_digit(v[v.len() - 1]));
        let a = digits_value(w);
        let p = pow10(w.len());
        let d = digit_val(v.last());
        assert(d < 10);
        assert(a * 10 + d < 10 * p) by (nonlinear_arith)
            requires
                a < p,
                d < 10,
        ;
    }
}

pub proof fn lemma_zeros_value(n: nat)
    ensures
        digits_value(zeros(n)) == 0,
    decreases n,
{
    if n > 0 {
        assert(zeros(n).drop_last() =~= zeros((n - 1) as nat));
        lemma_zeros_value((n - 1) as nat);
    }
}

/// Two digit sequences of one length, equal before `i` and greater at `i`.
pub proof fn lemma_lex_gt(x: Seq<char>, y: Seq<char>, i: int)
    requires
        x.len() == y.len(),
        0 <= i < x.len(),
        all_digits(x),
        all_digits(y),
        x.take(i) == y.take(i),
        x[i] > y[i],
    ensures
        digits_value(x) > digits_value(y),
{
    let n = x.len();
    let r = (n - i - 1) as nat;
    assert(x =~= x.take(i + 1) + x.skip(i + 1));
    assert(y =~= y.take(i + 1) + y.skip(i + 1));
    lemma_digits_concat(x.take(i + 1), x.skip(i + 1));
    lemma_digits_concat(y.take(i + 1), y.skip(i + 1));
    assert(x.take(i + 1).drop_last() =~= x.take(i));
    assert(y.take(i + 1).drop_last() =~= y.take(i));
    let v = digits_value(x.take(i));
    assert(digits_value(y.take(i)) == v);
    assert(is_digit(x[i]) && is_digit(y[i]));
    let dx = digit_val(x[i]);
    let dy = digit_val(y[i]);
    assert(dx > dy);
    assert(all_digits(y.skip(i + 1))) by {
        assert forall|j: int| 0 <= j < y.skip(i + 1).len() implies is_digit(
            #[trigger] y.skip(i + 1)[j],
        ) by {
            assert(y.skip(i + 1)[j] == y[i + 1 + j]);
        }
    }
    lemma_digits_bound(y.skip(i + 1));
    let p = pow10(r);
    let ry = digits_value(y.skip(i + 1));
    let rx = digits_value(x.skip(i + 1));
    assert(x.skip(i + 1).len() == r);
    assert((v * 10 + dx) * p + rx > (v * 10 + dy) * p + ry) by (nonlinear_arith)
        requires
            dx > dy,
            ry < p,
            rx >= 0,
    ;
}

// ───────────────────────────── executable ─────────────────────────────

fn push_zeros(v: &mut Vec<char>, z: usize)
    ensures
        final(v)@ == old(v)@ + zeros(z as nat),
{
    let ghost start = v@;
    let mut i: usize = 0;
    while i < z
        invariant
            i <= z,
            v@ == start + zeros(i as nat),
        decreases z - i,
    {
        v.push('0');
        i = i + 1;
        assert(v@ =~= start + zeros(i as nat));
    }
}

fn push_range(v: &mut Vec<char>, src: &Vec<char>, lo: usize, hi: usize)
    requires
        lo <= hi <= src.len(),
    ensures
        final(v)@ == old(v)@ + src@.subrange(lo as int, hi as int),
{
    let ghost start = v@;
    let mut i = lo;
    while i < hi
        invariant
            lo <= i <= hi <= src.len(),
            v@ == start + src@.subrange(lo as int, i as int),
        decreases hi - i,
    {
        v.push(src[i]);
        i = i + 1;
        assert(v@ =~= start + src@.subrange(lo as int, i as int));
    }
}

fn digits_in(v: &Vec<char>, lo: usize, hi: usize) -> (r: bool)
    requires
        lo <= hi <= v.len(),
    ensures
        r == all_digits(v@.subrange(lo as int, hi as int)),
{
    let mut i = lo;
    while i < hi
        invariant
            lo <= i <= hi <= v.len(),
            forall|j: int| lo <= j < i ==> is_digit(#[trigger] v@[j]),
        decreases hi - i,
    {
        if !(v[i] >= '0' && v[i] <= '9') {
            assert(v@.subrange(lo as int, hi as int)[i - lo] == v@[i as int]);
            return false;
        }
        i = i + 1;
    }
    assert forall|j: int| 0 <= j < hi - lo implies is_digit(
        #[trigger] v@.subrange(lo as int, hi as int)[j],
    ) by {
        assert(v@.subrange(lo as int, hi as int)[j] == v@[lo + j]);
    }
    true
}

/// Whether the digits of `x` denote a greater number than those of `y`, of the same length.
fn digits_gt(x: &Vec<char>, y: &Vec<char>) -> (r: bool)
    requires
        x.len() == y.len(),
        all_digits(x@),
        all_digits(y@),
    ensures
        r == (digits_value(x@) > digits_value(y@)),
{
    let mut i: usize = 0;
    while i < x.len()
        invariant
            i <= x.len() == y.len(),
            all_digits(x@),
            all_digits(y@),
            x@.take(i as int) == y@.take(i as int),
        decreases x.len() - i,
    {
        if x[i] != y[i] {
            proof {
                if x@[i as int] > y@[i as int] {
                    lemma_lex_gt(x@, y@, i as int);
                } else {
                    lemma_lex_gt(y@, x@, i as int);
                }
            }
            return x[i] > y[i];
        }
        assert(x@.take(i + 1) =~= x@.take(i as int).push(x@[i as int]));
        assert(y@.take(i + 1) =~= y@.take(i as int).push(y@[i as int]));
        i = i + 1;
    }
    assert(x@ =~= x@.take(i as int));
    assert(y@ =~= y@.take(i as int));
    false
}

/// The whole digits of a numeral, with zeros in front to make `n` of them.
#[verifier::spinoff_prover]
fn padded_whole(v: &Vec<char>, p: usize, n: usize) -> (r: Vec<char>)
    requires
        p == dot_pos(v@),
        numeral(v@),
        p <= n,
    ensures
        r.len() == n,
        all_digits(r@),
        digits_value(r@) == digits_value(whole_digits(v@)),
{
    let ghost s = v@;
    proof {
        lemma_run_end(s, 0, CharClass::NotChar('.'));
    }
    let mut r: Vec<char> = Vec::new();
    push_zeros(&mut r, n - p);
    push_range(&mut r, v, 0, p);
    proof {
        let whole = whole_digits(s);
        assert(s.subrange(0, p as int) =~= whole);
        assert(r@ =~= zeros((n - p) as nat) + whole);
        lemma_digits_concat(zeros((n - p) as nat), whole);
        lemma_zeros_value((n - p) as nat);
        assert forall|i: int| 0 <= i < r@.len() implies is_digit(#[trigger] r@[i]) by {
            if i < n - p {
                assert(r@[i] == zeros((n - p) as nat)[i]);
            } else {
                assert(r@[i] == whole[i - (n - p)]);
            }
        }
    }
    r
}

/// The fraction digits of a numeral, with zeros behind to make `k` of them.
fn padded_frac(v: &Vec<char>, p: usize, k: usize) -> (r: Vec<char>)
    requires
        p == dot_pos(v@),
        numeral(v@),
        frac_digits(v@).len() <= k,
    ensures
        r.len() == k,
        all_digits(r@),
        digits_value(r@) == digits_value(frac_digits(v@)) * pow10(
            (k - frac_digits(v@).len()) as nat,
        ),
{
    let ghost s = v@;
    proof {
        lemma_run_end(s, 0, CharClass::NotChar('.'));
    }
    let fl: usize = if p < v.len() {
        v.len() - p - 1
    } else {
        0
    };
    let mut r: Vec<char> = Vec::new();
    if p < v.len() {
        push_range(&mut r, v, p + 1, v.len());
    }
    let ghost wf = r@;
    push_zeros(&mut r, k - fl);
    proof {
        let frac = frac_digits(s);
        if p < s.len() {
            assert(s.subrange(p + 1, s.len() as int) =~= frac);
        }
        assert(wf =~= frac);
        assert(r@ =~= frac + zeros((k - fl) as nat));
        lemma_digits_concat(frac, zeros((k - fl) as nat));
        lemma_zeros_value((k - fl) as nat);
        assert forall|i: int| 0 <= i < r@.len() implies is_digit(#[trigger] r@[i]) by {
            if i < fl {
                assert(r@[i] == frac[i]);
            } else {
                assert(r@[i] == zeros((k - fl) as nat)[i - fl]);
            }
        }
    }
    r
}

/// A scaled value compares as its whole part first, then its fraction part.
proof fn lemma_scaled_order(wa: nat, fa: nat, wb: nat, fb: nat, p: nat)
    requires
        fa < p,
        fb < p,
    ensures
        (wa * p + fa > wb * p + fb) == (wa > wb || (wa == wb && fa > fb)),
{
    if wa > wb {
        assert(wa * p >= (wb + 1) * p) by (nonlinear_arith)
            requires
                wa >= wb + 1,
        ;
        assert((wb + 1) * p == wb * p + p) by (nonlinear_arith);
    } else if wa < wb {
        assert(wb * p >= (wa + 1) * p) by (nonlinear_arith)
            requires
                wb >= wa + 1,
        ;
        assert((wa + 1) * p == wa * p + p) by (nonlinear_arith);
    }
}

fn is_numeral(v: &Vec<char>, p: usize) -> (r: bool)
    requires
        p == dot_pos(v@),
    ensures
        r == numeral(v@),
{
    let ghost s = v@;
    proof {
        lemma_run_end(s, 0, CharClass::NotChar('.'));
    }
    assert(s.subrange(0, p as int) =~= whole_digits(s));
    if p == 0 || !digits_in(v, 0, p) {
        return false;
    }
    if p < v.len() {
        assert(s.subrange(p + 1, s.len() as int) =~= frac_digits(s));
        p + 1 < v.len() && digits_in(v, p + 1, v.len())
    } else {
        assert(frac_digits(s) =~= Seq::<char>::empty());
        true
    }
}

/// Whether numeral `a` denotes a greater number than numeral `b` (see [`dec_gt`]).
pub fn decimal_gt(a: &String, b: &String) -> (r: bool)
    ensures
        r == dec_gt(a@, b@),
{
    let va = collect_chars(a.as_str());
    let vb = collect_chars(b.as_str());
    let pa = run_end_exec(&va, 0, CharClass::NotChar('.'));
    let pb = run_end_exec(&vb, 0, CharClass::NotChar('.'));
    if !is_numeral(&va, pa) || !is_numeral(&vb, pb) {
        return false;
    }
    proof {
        lemma_run_end(va@, 0, CharClass::NotChar('.'));
        lemma_run_end(vb@, 0, CharClass::NotChar('.'));
    }
    let fa: usize = if pa < va.len() {
        va.len() - pa - 1
    } else {
        0
    };
    let fb: usize = if pb < vb.len() {
        vb.len() - pb - 1
    } else {
        0
    };
    let k = if fa >= fb {
        fa
    } else {
        fb
    };
    let n = if pa >= pb {
        pa
    } else {
        pb
    };
    assert(frac_digits(va@).len() == fa);
    assert(frac_digits(vb@).len() == fb);
    let wa = padded_whole(&va, pa, n);
    let wb = padded_whole(&vb, pb, n);
    let xa = padded_frac(&va, pa, k);
    let xb = padded_frac(&vb, pb, k);
    proof {
        lemma_digits_bound(xa@);
        lemma_digits_bound(xb@);
        lemma_scaled_order(
            digits_value(wa@),
            digits_value(xa@),
            digits_value(wb@),
            digits_value(xb@),
            pow10(k as nat),
        );
    }
    if digits_gt(&wa, &wb) {
        true
    } else if digits_gt(&wb, &wa) {
        false
    } else {
        digits_gt(&xa, &xb)
    }
}

/// No numeral is greater than itself, and of two numerals at most one is
/// the greater.
pub proof fn lemma_dec_gt_strict(a: Seq<char>, b: Seq<char>)
    ensures
        !dec_gt(a, a),
        dec_gt(a, b) ==> !dec_gt(b, a),
{
}

/// Greater-than on numerals is transitive.
pub proof fn lemma_dec_gt_transitive(a: Seq<char>, b: Seq<char>, c: Seq<char>)
    requires
        dec_gt(a, b),
        dec_gt(b, c),
    ensures
        dec_gt(a, c),
{
    let fa = frac_digits(a).len();
    let fb = frac_digits(b).len();
    let fc = frac_digits(c).len();
    let kab = if fa >= fb { fa } else { fb };
    let kbc = if fb >= fc { fb } else { fc };
    let kac = if fa >= fc { fa } else { fc };
    let k = if kab >= fc { kab } else { fc };
    lemma_scaled_shift(a, kab, k);
    lemma_scaled_shift(b, kab, k);
    lemma_scaled_shift(b, kbc, k);
    lemma_scaled_shift(c, kbc, k);
    lemma_scaled_shift(a, kac, k);
    lemma_scaled_shift(c, kac, k);
    lemma_pow10_pos((k - kab) as nat);
    lemma_pow10_pos((k - kbc) as nat);
    lemma_pow10_pos((k - kac) as nat);
    let p1 = pow10((k - kab) as nat);
    let p2 = pow10((k - kbc) as nat);
    let p3 = pow10((k - kac) as nat);
    assert(scaled(a, k) > scaled(b, k)) by (nonlinear_arith)
        requires
            scaled(a, kab) > scaled(b, kab),
            scaled(a, k) == scaled(a, kab) * p1,
            scaled(b, k) == scaled(b, kab) * p1,
            p1 >= 1,
    ;
    assert(scaled(b, k) > scaled(c, k)) by (nonlinear_arith)
        requires
            scaled(b, kbc) > scaled(c, kbc),
            scaled(b, k) == scaled(b, kbc) * p2,
            scaled(c, k) == scaled(c, kbc) * p2,
            p2 >= 1,
    ;
    assert(scaled(a, kac) > scaled(c, kac)) by (nonlinear_arith)
        requires
            scaled(a, k) > scaled(c, k),
            scaled(a, k) == scaled(a, kac) * p3,
            scaled(c, k) == scaled(c, kac) * p3,
            p3 >= 1,
    ;
}

} // verus!
