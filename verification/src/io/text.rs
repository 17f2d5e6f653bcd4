//! The text formats: one line for each bin of a histogram that has counts,
//! and one line for each point of a set of points, with tabs between the
//! numbers.

use crate::error::DkError;
use crate::hist::axis::{
    div_up, lemma_div_up, lemma_quotient_bounds, lemma_quotient_is,
};
use crate::hist::{Hist, Hist1d, Hist2d, Hist3d, Hist4d, HistAxis};
use crate::io::layout::push_bytes;
use crate::points::{Points, Points1d, Points2d, Points3d, Points4d};
use vstd::prelude::*;
use vstd::slice::slice_subrange;

verus! {

/// The byte of a tab.
pub const TAB: u8 = 9;

/// The byte that ends a line.
pub const NEWLINE: u8 = 10;

/// The digits of `n` in base ten, without zeros in front.
pub open spec fn digits(n: nat) -> Seq<u8>
    decreases n,
{
    if n < 10 {
        seq![(48 + n) as u8]
    } else {
        digits(n / 10).push((48 + n % 10) as u8)
    }
}

/// The number `v` in base ten, with a minus sign in front where it is
/// negative.
pub open spec fn decimal(v: int) -> Seq<u8> {
    if v < 0 {
        seq![45u8] + digits((-v) as nat)
    } else {
        digits(v as nat)
    }
}

/// Appends the digits of `n` to `out`.
pub fn push_digits(out: &mut Vec<u8>, n: u64)
    ensures
        final(out)@ == old(out)@ + digits(n as nat),
{
    let mut low: Vec<u8> = Vec::new();
    let mut left: u64 = n;
    while left >= 10
        invariant
            digits(n as nat) == digits(left as nat) + low@.reverse(),
        decreases left,
    {
        let d: u8 = (48 + left % 10) as u8;
        let ghost before = low@;
        low.push(d);
        proof {
            assert(low@.reverse() =~= seq![d] + before.reverse());
            assert(digits(left as nat) + before.reverse() =~= digits((left / 10) as nat) + (
            seq![d] + before.reverse()));
        }
        left = left / 10;
    }
    out.push((48 + left) as u8);
    let ghost head = old(out)@ + digits(left as nat);
    assert(out@ =~= head);
    assert(low@.reverse().take(0) =~= Seq::<u8>::empty());
    let ghost tail = low@.reverse();
    let mut k: usize = low.len();
    while k > 0
        invariant
            k <= low@.len(),
            tail == low@.reverse(),
            out@ == head + tail.take(low@.len() - k),
        decreases k,
    {
        k -= 1;
        out.push(low[k]);
        assert(tail.take(low@.len() - k) =~= tail.take(low@.len() - k - 1).push(low@[k as int]));
    }
    assert(tail.take(low@.len() as int) =~= tail);
}

/// Appends the number `v` in base ten to `out`.
pub fn push_decimal(out: &mut Vec<u8>, v: i64)
    ensures
        final(out)@ == old(out)@ + decimal(v as int),
{
    if v < 0 {
        out.push(45u8);
        push_digits(out, (-(v as i128)) as u64);
        assert(old(out)@.push(45u8) + digits((-v) as nat) =~= old(out)@ + (seq![45u8] + digits(
            (-v) as nat,
        )));
    } else {
        push_digits(out, v as u64);
    }
}

/// All bytes of `s` are digits.
pub open spec fn all_digits(s: Seq<u8>) -> bool {
    forall|i: int| 0 <= i < s.len() ==> 48 <= #[trigger] s[i] <= 57
}

/// The number that the digits `s` write in base ten.
pub open spec fn digits_value(s: Seq<u8>) -> nat
    decreases s.len(),
{
    if s.len() == 0 {
        0
    } else {
        (digits_value(s.drop_last()) * 10 + (s.last() - 48)) as nat
    }
}

/// The count that the text `s` writes: digits, with or without a plus
/// sign in front, that write a number of at most `u64::MAX`.
pub open spec fn count_of(s: Seq<u8>) -> Option<u64> {
    let body = if s.len() > 0 && s[0] == 43 {
        s.skip(1)
    } else {
        s
    };
    if body.len() > 0 && all_digits(body) && digits_value(body) <= u64::MAX {
        Some(digits_value(body) as u64)
    } else {
        None
    }
}

/// Digits in front write no more than all digits.
pub proof fn lemma_digits_value_grows(s: Seq<u8>, k: int)
    requires
        all_digits(s),
        0 <= k <= s.len(),
    ensures
        digits_value(s.take(k)) <= digits_value(s),
    decreases s.len(),
{
    if k < s.len() {
        lemma_digits_value_grows(s.drop_last(), k);
        assert(s.drop_last().take(k) =~= s.take(k));
        assert(48 <= s[s.len() - 1]);
        assert(digits_value(s.drop_last()) * 10 >= digits_value(s.drop_last()))
            by (nonlinear_arith);
    } else {
        assert(s.take(k) =~= s);
    }
}

/// Reads the digits of `text` from `start` on. Returns the number they
/// write where all are digits, there is one at least, and the number is
/// at most `limit`.
fn read_digits(text: &[u8], start: usize, limit: u64) -> (r: Option<u64>)
    requires
        start <= text@.len(),
    ensures
        r == if text@.skip(start as int).len() > 0 && all_digits(text@.skip(start as int))
            && digits_value(text@.skip(start as int)) <= limit {
            Some(digits_value(text@.skip(start as int)) as u64)
        } else {
            None
        },
{
    let ghost body = text@.skip(start as int);
    if start == text.len() {
        return None;
    }
    let mut acc: u64 = 0;
    let mut i: usize = start;
    assert(body.take(0) =~= Seq::<u8>::empty());
    while i < text.len()
        invariant
            start <= i <= text@.len(),
            body == text@.skip(start as int),
            all_digits(body.take(i - start)),
            acc == digits_value(body.take(i - start)),
            acc <= limit,
        decreases text.len() - i,
    {
        let b: u8 = text[i];
        let ghost front = body.take(i - start);
        let ghost next = body.take(i - start + 1);
        proof {
            assert(next.drop_last() =~= front);
            assert(next.last() == b);
            assert(body[i - start] == b);
        }
        if b < 48 || b > 57 {
            return None;
        }
        let d: u64 = (b - 48) as u64;
        proof {
            assert(all_digits(next)) by {
                assert forall|j: int| 0 <= j < next.len() implies 48 <= #[trigger] next[j]
                    <= 57 by {
                    if j < front.len() {
                        assert(front[j] == next[j]);
                    }
                }
            }
        }
        if limit < d || acc > (limit - d) / 10 {
            proof {
                // the digits so far write more than the limit
                assert(digits_value(next) > limit) by {
                    if limit >= d {
                        vstd::arithmetic::div_mod::lemma_fundamental_div_mod(
                            (limit - d) as int,
                            10,
                        );
                        vstd::arithmetic::div_mod::lemma_mod_bound((limit - d) as int, 10);
                        assert(acc * 10 >= ((limit - d) / 10 + 1) * 10) by (nonlinear_arith)
                            requires
                                acc >= (limit - d) / 10 + 1,
                        ;
                    }
                }
                if all_digits(body) {
                    lemma_digits_value_grows(body, i - start + 1);
                }
            }
            return None;
        }
        assert(acc * 10 + d <= limit) by {
            vstd::arithmetic::div_mod::lemma_fundamental_div_mod((limit - d) as int, 10);
            vstd::arithmetic::div_mod::lemma_mod_bound((limit - d) as int, 10);
            assert(acc * 10 <= ((limit - d) / 10) * 10) by (nonlinear_arith)
                requires
                    acc <= (limit - d) / 10,
            ;
        }
        acc = acc * 10 + d;
        i += 1;
    }
    assert(body.take(i - start) =~= body);
    Some(acc)
}

/// Reads a count.
pub fn parse_count(text: &[u8]) -> (r: Option<u64>)
    ensures
        r == count_of(text@),
{
    let start: usize = if text.len() > 0 && text[0] == 43 {
        1
    } else {
        0
    };
    proof {
        if start == 0 {
            assert(text@.skip(0) =~= text@);
        }
    }
    read_digits(text, start, u64::MAX)
}

/// The byte that parts the whole of a number from its fraction.
pub const POINT: u8 = 46;

/// Ten to the power of `k`.
pub open spec fn pow10(k: nat) -> nat
    decreases k,
{
    if k == 0 {
        1
    } else {
        10 * pow10((k - 1) as nat)
    }
}

/// `a / d`, rounded up where `up` is set and down where it is not.
pub open spec fn quotient(a: int, d: int, up: bool) -> int {
    if up {
        div_up(a, d)
    } else {
        a / d
    }
}

/// The largest exponent, in size, that a number can be written with.
pub const EXPONENT_LIMIT: u64 = 999;

/// `p` is the place of the first point in `s`, or the length of `s` where
/// it has none.
pub open spec fn is_point_place(s: Seq<u8>, p: int) -> bool {
    &&& 0 <= p <= s.len()
    &&& p < s.len() ==> s[p] == POINT
    &&& forall|j: int| 0 <= j < p ==> s[j] != POINT
}

/// The place of the first point in `s`, or the length of `s` where it has
/// none.
pub open spec fn point_place(s: Seq<u8>) -> int {
    choose|p: int| is_point_place(s, p)
}

/// `p` is the place of the first `e` in `s`, small or capital, or the
/// length of `s` where it has none.
pub open spec fn is_exponent_place(s: Seq<u8>, p: int) -> bool {
    &&& 0 <= p <= s.len()
    &&& p < s.len() ==> (s[p] == 69 || s[p] == 101)
    &&& forall|j: int| 0 <= j < p ==> s[j] != 69 && s[j] != 101
}

/// The place of the first `e` in `s`, or the length of `s` where it has
/// none.
pub open spec fn exponent_place(s: Seq<u8>) -> int {
    choose|p: int| is_exponent_place(s, p)
}

/// The text without the sign in front of it, where it has one.
pub open spec fn unsigned(s: Seq<u8>) -> Seq<u8> {
    if s.len() > 0 && (s[0] == 43 || s[0] == 45) {
        s.skip(1)
    } else {
        s
    }
}

/// The exponent that the text `s` writes: a sign or none, then digits
/// that write a number of at most `EXPONENT_LIMIT`.
pub open spec fn exponent_of(s: Seq<u8>) -> Option<int> {
    let body = unsigned(s);
    if body.len() > 0 && all_digits(body) && digits_value(body) <= EXPONENT_LIMIT {
        Some(
            if s[0] == 45 {
                -(digits_value(body) as int)
            } else {
                digits_value(body) as int
            },
        )
    } else {
        None
    }
}

/// The number with the digits `whole` before the point and `part` behind
/// it, times ten to the power of `x`, in ticks, rounded down.
pub open spec fn ticks_by_digits(
    negative: bool,
    whole: Seq<u8>,
    part: Seq<u8>,
    x: int,
    ticks_per_unit: u64,
) -> int {
    let m = digits_value(whole + part) * ticks_per_unit;
    let up = if x > 0 {
        pow10(x as nat)
    } else {
        1
    };
    let down = if x < 0 {
        pow10((part.len() - x) as nat)
    } else {
        pow10(part.len())
    };
    ((if negative {
        -m
    } else {
        m as int
    }) * up) / (down as int)
}

/// The value in ticks of a number that is written with the digits `whole`
/// before the point, the digits `part` behind it, and the exponent `x`.
/// There is none where there is no digit or no exponent, where a digit is
/// none, and where the value lies outside the range of the ticks.
pub open spec fn number_of(
    negative: bool,
    whole: Seq<u8>,
    part: Seq<u8>,
    x: Option<int>,
    ticks_per_unit: u64,
) -> Option<i64> {
    if whole.len() + part.len() > 0 && all_digits(whole) && all_digits(part) && x is Some {
        let v = ticks_by_digits(negative, whole, part, x->Some_0, ticks_per_unit);
        if i64::MIN <= v <= i64::MAX {
            Some(v as i64)
        } else {
            None
        }
    } else {
        None
    }
}

/// The value that the text `s` writes, in ticks of which `ticks_per_unit`
/// make one unit: a sign or none, then digits, a point and digits, of
/// which the point and the digits on one of its sides may be missing, and
/// then an exponent or none, behind an `e`. The number is multiplied by
/// the ticks of a unit and rounded down: it is the last tick that is not
/// above the value. There is no value where this lies outside the range
/// from `i64::MIN` to `i64::MAX`.
pub open spec fn ticks_of(s: Seq<u8>, ticks_per_unit: u64) -> Option<i64> {
    let negative = s.len() > 0 && s[0] == 45;
    let body = unsigned(s);
    let e = exponent_place(body);
    let number = body.take(e);
    let x = if e < body.len() {
        exponent_of(body.skip(e + 1))
    } else {
        Some(0int)
    };
    let p = point_place(number);
    let whole = number.take(p);
    let part = if p < number.len() {
        number.skip(p + 1)
    } else {
        Seq::<u8>::empty()
    };
    number_of(negative, whole, part, x, ticks_per_unit)
}

/// `n` digits 0.
pub open spec fn noughts(n: nat) -> Seq<u8> {
    Seq::new(n, |i: int| 48u8)
}

/// The digits before and behind the point, after the point was moved to
/// the right by `x` places, or to the left where `x` is negative. Where
/// digits are missing there, digits 0 take their place.
pub open spec fn moved(whole: Seq<u8>, part: Seq<u8>, x: int) -> (Seq<u8>, Seq<u8>) {
    if x >= 0 {
        if x <= part.len() {
            (whole + part.take(x), part.skip(x))
        } else {
            (whole + part + noughts((x - part.len()) as nat), Seq::<u8>::empty())
        }
    } else {
        if -x <= whole.len() {
            (whole.take(whole.len() + x), whole.skip(whole.len() + x) + part)
        } else {
            (Seq::<u8>::empty(), noughts((-x - whole.len()) as nat) + whole + part)
        }
    }
}

/// A power of ten is positive.
pub proof fn lemma_pow10_positive(k: nat)
    ensures
        pow10(k) > 0,
    decreases k,
{
    if k > 0 {
        lemma_pow10_positive((k - 1) as nat);
    }
}

/// There is one place of the first point only.
pub proof fn lemma_point_place(s: Seq<u8>, p: int)
    requires
        is_point_place(s, p),
    ensures
        point_place(s) == p,
{
    let q = point_place(s);
    assert(is_point_place(s, q));
    if q < p {
        assert(s[q] != POINT);
    }
    if p < q {
        assert(s[p] != POINT);
    }
}

/// There is one place of the first `e` only.
pub proof fn lemma_exponent_place(s: Seq<u8>, p: int)
    requires
        is_exponent_place(s, p),
    ensures
        exponent_place(s) == p,
{
    let q = exponent_place(s);
    assert(is_exponent_place(s, q));
    if q < p {
        assert(s[q] != 69 && s[q] != 101);
    }
    if p < q {
        assert(s[p] != 69 && s[p] != 101);
    }
}

/// Powers of ten multiply as their exponents add.
pub proof fn lemma_pow10_sum(a: nat, b: nat)
    ensures
        pow10(a + b) == pow10(a) * pow10(b),
        pow10(a) > 0,
        pow10(b) > 0,
    decreases a,
{
    lemma_pow10_positive(a);
    lemma_pow10_positive(b);
    if a == 0 {
        assert(1 * pow10(b) == pow10(b)) by (nonlinear_arith);
    } else {
        lemma_pow10_sum((a - 1) as nat, b);
        let x = pow10((a - 1) as nat) as int;
        let y = pow10(b) as int;
        assert(pow10(a + b) == 10 * pow10((a + b - 1) as nat));
        assert(10 * (x * y) == (10 * x) * y) by (nonlinear_arith);
    }
}

/// Digits 0 write 0.
pub proof fn lemma_noughts(n: nat)
    ensures
        all_digits(noughts(n)),
        digits_value(noughts(n)) == 0,
    decreases n,
{
    if n > 0 {
        lemma_noughts((n - 1) as nat);
        assert(noughts(n).drop_last() =~= noughts((n - 1) as nat));
    }
}

/// A factor that the two sides of a division share can be left out.
pub proof fn lemma_shared_factor(n: int, d: int, c: int)
    requires
        d > 0,
        c > 0,
    ensures
        (n * c) / (d * c) == n / d,
{
    let q = n / d;
    lemma_quotient_bounds(n, d);
    assert(q * (d * c) <= n * c && n * c < q * (d * c) + d * c) by (nonlinear_arith)
        requires
            d * q <= n,
            n < d * q + d,
            c > 0,
    ;
    assert(d * c > 0) by (nonlinear_arith)
        requires
            d > 0,
            c > 0,
    ;
    lemma_quotient_is(n * c, d * c, q);
}

/// Digits are digits, wherever the point stands among them.
pub proof fn lemma_moved_digits(whole: Seq<u8>, part: Seq<u8>, x: int)
    requires
        all_digits(whole),
        all_digits(part),
    ensures
        all_digits(moved(whole, part, x).0),
        all_digits(moved(whole, part, x).1),
{
    let n = if x >= 0 {
        (x - part.len()) as nat
    } else {
        (-x - whole.len()) as nat
    };
    lemma_noughts(n);
    let r = moved(whole, part, x);
    assert forall|i: int| 0 <= i < r.0.len() implies 48 <= #[trigger] r.0[i] <= 57 by {
        if x >= 0 {
            if i < whole.len() {
                assert(r.0[i] == whole[i]);
            } else if i < whole.len() + part.len() {
                assert(r.0[i] == part[i - whole.len()]);
            } else {
                assert(r.0[i] == noughts(n)[i - whole.len() - part.len()]);
            }
        } else {
            assert(r.0[i] == whole[i]);
        }
    }
    assert forall|i: int| 0 <= i < r.1.len() implies 48 <= #[trigger] r.1[i] <= 57 by {
        if x >= 0 {
            assert(r.1[i] == part[i + x]);
        } else if -x <= whole.len() {
            if i < -x {
                assert(r.1[i] == whole[whole.len() + x + i]);
            } else {
                assert(r.1[i] == part[i + x]);
            }
        } else {
            if i < n {
                assert(r.1[i] == noughts(n)[i]);
            } else if i < n + whole.len() {
                assert(r.1[i] == whole[i - n]);
            } else {
                assert(r.1[i] == part[i - n - whole.len()]);
            }
        }
    }
}

/// A number times a power of ten is the number with its point moved.
pub proof fn lemma_moved(negative: bool, whole: Seq<u8>, part: Seq<u8>, x: int, ticks_per_unit: u64)
    requires
        all_digits(whole),
        all_digits(part),
    ensures
        ticks_by_digits(negative, whole, part, x, ticks_per_unit) == ticks_by_digits(
            negative,
            moved(whole, part, x).0,
            moved(whole, part, x).1,
            0,
            ticks_per_unit,
        ),
{
    let r = moved(whole, part, x);
    let k = part.len();
    let t = ticks_per_unit as int;
    let big = digits_value(whole + part) as int;
    let m = big * t;
    let n = if negative {
        -m
    } else {
        m
    };
    if x >= 0 && x <= k {
        assert(r.0 + r.1 =~= whole + part);
        lemma_pow10_sum((k - x) as nat, x as nat);
        if x > 0 {
            lemma_shared_factor(n, pow10((k - x) as nat) as int, pow10(x as nat) as int);
        } else {
            assert(n * 1 == n);
        }
        assert(n * 1 == n);
    } else if x > k {
        let j = (x - k) as nat;
        lemma_noughts(j);
        lemma_digits_value_concat(whole + part, noughts(j));
        assert(r.0 + r.1 =~= whole + part + noughts(j));
        lemma_pow10_sum(j, k);
        let c = pow10(k) as int;
        let f = pow10(j) as int;
        assert(pow10(x as nat) == f * c);
        assert(pow10(0) == 1);
        // on the left, the power of ten that the two sides share is left out
        assert(n * (f * c) == (n * f) * c) by (nonlinear_arith);
        assert(1 * c == c);
        lemma_shared_factor(n * f, 1, c);
        // on the right, the digits 0 stand for the power of ten that is left
        let m2 = (big * f) * t;
        assert(m2 == m * f) by (nonlinear_arith)
            requires
                m2 == (big * f) * t,
                m == big * t,
        ;
        assert((-m) * f == -(m * f)) by (nonlinear_arith);
        assert((n * f) * 1 == n * f);
        assert(m2 * 1 == m2 && (-m2) * 1 == -m2);
    } else if -x <= whole.len() {
        assert(r.0 + r.1 =~= whole + part);
        assert(n * 1 == n);
    } else {
        let j = (-x - whole.len()) as nat;
        lemma_noughts(j);
        lemma_digits_value_concat(noughts(j), whole + part);
        assert forall|i: int| 0 <= i < (whole + part).len() implies 48 <= #[trigger] (whole
            + part)[i] <= 57 by {
            if i < whole.len() {
                assert((whole + part)[i] == whole[i]);
            } else {
                assert((whole + part)[i] == part[i - whole.len()]);
            }
        }
        assert(r.0 + r.1 =~= noughts(j) + (whole + part));
        assert(noughts(j) + whole + part =~= noughts(j) + (whole + part));
        assert(0 * pow10((whole + part).len()) == 0);
        assert(n * 1 == n);
    }
}

/// Digits behind digits: the number of the first is moved to the left by
/// the length of the second.
pub proof fn lemma_digits_value_concat(a: Seq<u8>, b: Seq<u8>)
    requires
        all_digits(b),
    ensures
        digits_value(a + b) == digits_value(a) * pow10(b.len()) + digits_value(b),
    decreases b.len(),
{
    if b.len() == 0 {
        assert(a + b =~= a);
        assert(digits_value(a) * 1 == digits_value(a)) by (nonlinear_arith);
    } else {
        lemma_digits_value_concat(a, b.drop_last());
        assert((a + b).drop_last() =~= a + b.drop_last());
        assert(48 <= b[b.len() - 1] <= 57);
        let x = digits_value(a) as int;
        let y = pow10(b.drop_last().len()) as int;
        assert((x * y) * 10 == x * (10 * y)) by (nonlinear_arith);
    }
}

/// The number that digits write, by the first digit and the rest.
pub proof fn lemma_digits_value_front(s: Seq<u8>)
    requires
        s.len() > 0,
        all_digits(s),
    ensures
        digits_value(s) == (s[0] - 48) * pow10((s.len() - 1) as nat) + digits_value(s.skip(1)),
{
    let a = s.take(1);
    assert(s =~= a + s.skip(1));
    lemma_digits_value_concat(a, s.skip(1));
    assert(a.drop_last() =~= Seq::<u8>::empty());
    assert(digits_value(a.drop_last()) == 0);
    assert(48 <= s[0] <= 57);
    assert(digits_value(a) == s[0] - 48);
}

/// A number `t` with `d * (t - 1) < a <= d * t` is `a / d` rounded up.
pub proof fn lemma_div_up_is(a: int, d: int, t: int)
    requires
        d > 0,
        d * t >= a,
        d * (t - 1) < a,
    ensures
        div_up(a, d) == t,
{
    assert(d * (t - 1) == t * d - d) by (nonlinear_arith);
    assert(d * t == t * d) by (nonlinear_arith);
    lemma_quotient_is(a + d - 1, d, t);
}

/// Dividing the negative of a number rounds the other way.
pub proof fn lemma_quotient_of_negative(a: int, d: int)
    requires
        d > 0,
    ensures
        (-a) / d == -div_up(a, d),
{
    let t = div_up(a, d);
    lemma_div_up(a, d);
    assert(d * (t - 1) == t * d - d) by (nonlinear_arith);
    assert(d * t == t * d) by (nonlinear_arith);
    assert((-t) * d == -(t * d)) by (nonlinear_arith);
    lemma_quotient_is(-a, d, -t);
}

/// A multiple of the divisor can be taken out of a quotient.
pub proof fn lemma_quotient_of_sum(a: int, r: int, p: int, up: bool)
    requires
        p > 0,
    ensures
        quotient(a * p + r, p, up) == a + quotient(r, p, up),
{
    let q = quotient(r, p, up);
    if up {
        lemma_div_up(r, p);
        assert(p * (a + q) >= a * p + r && p * (a + q - 1) < a * p + r) by (nonlinear_arith)
            requires
                p * q >= r,
                p * (q - 1) < r,
        ;
        lemma_div_up_is(a * p + r, p, a + q);
    } else {
        lemma_quotient_bounds(r, p);
        assert((a + q) * p <= a * p + r && a * p + r < (a + q) * p + p) by (nonlinear_arith)
            requires
                p * q <= r,
                r < p * q + p,
        ;
        lemma_quotient_is(a * p + r, p, a + q);
    }
}

/// Dividing by ten times `p` is dividing by `p` and then by ten, both
/// rounded the same way.
pub proof fn lemma_quotient_in_steps(a: int, r: int, p: int, up: bool)
    requires
        p > 0,
    ensures
        quotient(a * p + r, p * 10, up) == quotient(a + quotient(r, p, up), 10, up),
{
    let q = quotient(r, p, up);
    let t = quotient(a + q, 10, up);
    if up {
        lemma_div_up(r, p);
        lemma_div_up(a + q, 10);
        assert((p * 10) * t >= a * p + r && (p * 10) * (t - 1) < a * p + r) by (nonlinear_arith)
            requires
                p > 0,
                p * q >= r,
                p * (q - 1) < r,
                10 * t >= a + q,
                10 * (t - 1) < a + q,
        ;
        lemma_div_up_is(a * p + r, p * 10, t);
    } else {
        lemma_quotient_bounds(r, p);
        lemma_quotient_bounds(a + q, 10);
        assert(t * (p * 10) <= a * p + r && a * p + r < t * (p * 10) + p * 10)
            by (nonlinear_arith)
            requires
                p > 0,
                p * q <= r,
                r < p * q + p,
                10 * t <= a + q,
                a + q < 10 * t + 10,
        ;
        lemma_quotient_is(a * p + r, p * 10, t);
    }
}

/// Tells whether all bytes of `text` are digits.
fn only_digits(text: &[u8]) -> (r: bool)
    ensures
        r == all_digits(text@),
{
    let mut i: usize = 0;
    while i < text.len()
        invariant
            i <= text@.len(),
            forall|j: int| 0 <= j < i ==> 48 <= #[trigger] text@[j] <= 57,
        decreases text.len() - i,
    {
        if text[i] < 48 || text[i] > 57 {
            return false;
        }
        i += 1;
    }
    true
}

/// Returns what the digits behind the point are worth in ticks: the
/// fraction that they write, times the ticks of a unit, rounded up or
/// down. The digits are taken from the last to the first, so that no
/// number larger than ten units is at hand, however many digits there are.
fn part_ticks(text: &[u8], ticks_per_unit: u64, up: bool) -> (r: u64)
    requires
        all_digits(text@),
    ensures
        r == quotient(
            digits_value(text@) * ticks_per_unit,
            pow10(text@.len()) as int,
            up,
        ),
        r <= ticks_per_unit,
{
    let mut acc: u64 = 0;
    let mut j: usize = text.len();
    proof {
        assert(text@.skip(j as int) =~= Seq::<u8>::empty());
        assert(digits_value(text@.skip(j as int)) == 0);
        assert(pow10(0) == 1);
    }
    while j > 0
        invariant
            j <= text@.len(),
            all_digits(text@),
            acc <= ticks_per_unit,
            acc == quotient(
                digits_value(text@.skip(j as int)) * ticks_per_unit,
                pow10((text@.len() - j) as nat) as int,
                up,
            ),
        decreases j,
    {
        let ghost rest = text@.skip(j as int);
        j -= 1;
        assert(48 <= text@[j as int] <= 57);
        let d: u128 = (text[j] - 48) as u128;
        assert(d * ticks_per_unit <= 9 * 0xffff_ffff_ffff_ffff) by (nonlinear_arith)
            requires
                d <= 9,
                ticks_per_unit <= 0xffff_ffff_ffff_ffff,
        ;
        assert(d * ticks_per_unit + acc <= 10 * ticks_per_unit) by (nonlinear_arith)
            requires
                d <= 9,
                acc <= ticks_per_unit,
        ;
        let ghost run = text@.skip(j as int);
        let ghost p = pow10(rest.len()) as int;
        let sum: u128 = d * (ticks_per_unit as u128) + (acc as u128);
        proof {
            assert(run.skip(1) =~= rest);
            assert(run[0] == text@[j as int]);
            assert(all_digits(run));
            lemma_digits_value_front(run);
            lemma_pow10_positive(rest.len());
            let a = d as int * ticks_per_unit as int;
            let r = digits_value(rest) * ticks_per_unit;
            assert(digits_value(run) * ticks_per_unit == a * p + r) by (nonlinear_arith)
                requires
                    digits_value(run) == d * p + digits_value(rest),
                    a == d as int * ticks_per_unit as int,
                    r == digits_value(rest) * ticks_per_unit,
            ;
            lemma_quotient_in_steps(a, r, p, up);
            assert(pow10(run.len()) == p * 10);
        }
        acc = if up {
            ((sum + 9) / 10) as u64
        } else {
            (sum / 10) as u64
        };
    }
    proof {
        assert(text@.skip(0) =~= text@);
    }
    acc
}

/// The value of a number in ticks, by the digits before the point and
/// those behind it: the first are worth whole units, and what the second
/// are worth is rounded down, which for a negative number is away from 0.
pub open spec fn ticks_by_parts(negative: bool, whole: Seq<u8>, part: Seq<u8>, ticks_per_unit: u64)
    -> int {
    let size = digits_value(whole) * ticks_per_unit + quotient(
        digits_value(part) * ticks_per_unit,
        pow10(part.len()) as int,
        negative,
    );
    if negative {
        -size
    } else {
        size
    }
}

/// The value of a number in ticks is what its two parts are worth.
pub proof fn lemma_ticks_by_parts(negative: bool, whole: Seq<u8>, part: Seq<u8>, ticks_per_unit: u64)
    requires
        all_digits(part),
    ensures
        ticks_by_digits(negative, whole, part, 0, ticks_per_unit) == ticks_by_parts(
            negative,
            whole,
            part,
            ticks_per_unit,
        ),
{
    let p = pow10(part.len()) as int;
    let m = digits_value(whole + part) * ticks_per_unit;
    let a = digits_value(whole) * ticks_per_unit;
    let r = digits_value(part) * ticks_per_unit;
    lemma_pow10_positive(part.len());
    lemma_digits_value_concat(whole, part);
    assert(m == a * p + r) by (nonlinear_arith)
        requires
            m == (digits_value(whole) * p + digits_value(part)) * ticks_per_unit,
            a == digits_value(whole) * ticks_per_unit,
            r == digits_value(part) * ticks_per_unit,
    ;
    lemma_quotient_of_sum(a, r, p, negative);
    lemma_quotient_of_negative(m, p);
    assert(m * 1 == m && (-m) * 1 == -m);
}

/// Returns the value in ticks of the number with the digits `whole` before
/// the point and `part` behind it, where it is in the range of the ticks.
fn ticks_from_parts(negative: bool, whole: &[u8], part: &[u8], ticks_per_unit: u64) -> (r: Option<
    i64,
>)
    requires
        all_digits(whole@),
        all_digits(part@),
    ensures
        r == if i64::MIN <= ticks_by_parts(negative, whole@, part@, ticks_per_unit) <= i64::MAX {
            Some(ticks_by_parts(negative, whole@, part@, ticks_per_unit) as i64)
        } else {
            None
        },
{
    proof {
        assert(whole@.skip(0) =~= whole@);
    }
    let low: u64 = part_ticks(part, ticks_per_unit, negative);
    let high: Option<u64> = if whole.len() == 0 {
        Some(0)
    } else {
        read_digits(whole, 0, 0x8000_0000_0000_0000)
    };
    match high {
        Some(high) => {
            proof {
                assert(high * ticks_per_unit <= 0x8000_0000_0000_0000 * 0xffff_ffff_ffff_ffff)
                    by (nonlinear_arith)
                    requires
                        high <= 0x8000_0000_0000_0000,
                        ticks_per_unit <= 0xffff_ffff_ffff_ffff,
                ;
            }
            let size: u128 = (high as u128) * (ticks_per_unit as u128) + (low as u128);
            if negative {
                if size <= 0x8000_0000_0000_0000 {
                    Some((-(size as i128)) as i64)
                } else {
                    None
                }
            } else {
                if size <= 0x7fff_ffff_ffff_ffff {
                    Some(size as i64)
                } else {
                    None
                }
            }
        },
        None => {
            if ticks_per_unit == 0 {
                proof {
                    assert(digits_value(whole@) * ticks_per_unit == 0) by (nonlinear_arith)
                        requires
                            ticks_per_unit == 0,
                    ;
                }
                Some(0)
            } else {
                proof {
                    assert(digits_value(whole@) * ticks_per_unit > 0x8000_0000_0000_0000)
                        by (nonlinear_arith)
                        requires
                            digits_value(whole@) > 0x8000_0000_0000_0000,
                            ticks_per_unit >= 1,
                    ;
                }
                None
            }
        },
    }
}

/// Reads an exponent.
fn parse_exponent(text: &[u8]) -> (r: Option<i64>)
    ensures
        as_number(r) == exponent_of(text@),
        r matches Some(x) ==> -999 <= x <= 999,
{
    let body: &[u8] = without_sign(text);
    proof {
        assert(body@.skip(0) =~= body@);
    }
    match read_digits(body, 0, EXPONENT_LIMIT) {
        Some(m) => if text[0] == 45 {
            Some(-(m as i64))
        } else {
            Some(m as i64)
        },
        None => None,
    }
}

/// Appends `n` digits 0 to `out`.
fn push_noughts(out: &mut Vec<u8>, n: usize)
    ensures
        final(out)@ == old(out)@ + noughts(n as nat),
{
    let mut i: usize = 0;
    while i < n
        invariant
            i <= n,
            out@ =~= old(out)@ + noughts(i as nat),
        decreases n - i,
    {
        out.push(48);
        i += 1;
    }
}

/// Returns the digits before and behind the point, after the point was
/// moved by `x` places.
fn with_point_moved(whole: &[u8], part: &[u8], x: i64) -> (r: (Vec<u8>, Vec<u8>))
    requires
        -999 <= x <= 999,
    ensures
        r.0@ == moved(whole@, part@, x as int).0,
        r.1@ == moved(whole@, part@, x as int).1,
{
    let mut before: Vec<u8> = Vec::new();
    let mut behind: Vec<u8> = Vec::new();
    if x >= 0 {
        let j: usize = if (x as usize) < part.len() {
            x as usize
        } else {
            part.len()
        };
        push_bytes(&mut before, whole);
        push_bytes(&mut before, slice_subrange(part, 0, j));
        push_noughts(&mut before, x as usize - j);
        push_bytes(&mut behind, slice_subrange(part, j, part.len()));
    } else {
        let n: usize = (-x) as usize;
        let j: usize = if n < whole.len() {
            n
        } else {
            whole.len()
        };
        push_bytes(&mut before, slice_subrange(whole, 0, whole.len() - j));
        push_noughts(&mut behind, n - j);
        push_bytes(&mut behind, slice_subrange(whole, whole.len() - j, whole.len()));
        push_bytes(&mut behind, part);
    }
    proof {
        assert(noughts(0) =~= Seq::<u8>::empty());
        assert(part@.subrange(0, part@.len() as int) =~= part@);
        assert(whole@.subrange(0, whole@.len() as int) =~= whole@);
        assert(before@ =~= moved(whole@, part@, x as int).0);
        assert(behind@ =~= moved(whole@, part@, x as int).1);
    }
    (before, behind)
}

/// The exponent that was read, as the number that it is.
pub open spec fn as_number(x: Option<i64>) -> Option<int> {
    match x {
        Some(x) => Some(x as int),
        None => None,
    }
}

/// Returns the value in ticks of the number that is written with `whole`
/// before the point, `part` behind it, and the exponent `x`.
fn number_from(negative: bool, whole: &[u8], part: &[u8], x: Option<i64>, ticks_per_unit: u64) -> (r:
    Option<i64>)
    requires
        x matches Some(x) ==> -999 <= x <= 999,
    ensures
        r == number_of(negative, whole@, part@, as_number(x), ticks_per_unit),
{
    if (whole.len() == 0 && part.len() == 0) || !only_digits(whole) || !only_digits(part) {
        return None;
    }
    match x {
        None => None,
        Some(x) => {
            let (before, behind) = with_point_moved(whole, part, x);
            proof {
                lemma_moved_digits(whole@, part@, x as int);
                lemma_moved(negative, whole@, part@, x as int, ticks_per_unit);
                lemma_ticks_by_parts(negative, before@, behind@, ticks_per_unit);
            }
            ticks_from_parts(negative, before.as_slice(), behind.as_slice(), ticks_per_unit)
        },
    }
}

/// Returns the place of the first `e` in `text`, or the length of `text`
/// where it has none.
fn find_exponent(text: &[u8]) -> (p: usize)
    ensures
        p == exponent_place(text@),
        p <= text@.len(),
{
    let mut p: usize = 0;
    while p < text.len() && text[p] != 69 && text[p] != 101
        invariant
            p <= text@.len(),
            forall|j: int| 0 <= j < p ==> text@[j] != 69 && text@[j] != 101,
        decreases text.len() - p,
    {
        p += 1;
    }
    proof {
        lemma_exponent_place(text@, p as int);
    }
    p
}

/// Returns the place of the first point in `text`, or the length of `text`
/// where it has none.
fn find_point(text: &[u8]) -> (p: usize)
    ensures
        p == point_place(text@),
        p <= text@.len(),
{
    let mut p: usize = 0;
    while p < text.len() && text[p] != POINT
        invariant
            p <= text@.len(),
            forall|j: int| 0 <= j < p ==> text@[j] != POINT,
        decreases text.len() - p,
    {
        p += 1;
    }
    proof {
        lemma_point_place(text@, p as int);
    }
    p
}

/// Returns the text without the sign in front of it, where it has one.
fn without_sign(text: &[u8]) -> (r: &[u8])
    ensures
        r@ == unsigned(text@),
{
    if text.len() > 0 && (text[0] == 43 || text[0] == 45) {
        slice_subrange(text, 1, text.len())
    } else {
        text
    }
}

/// Reads a value in ticks, of which `ticks_per_unit` make one unit.
pub fn parse_ticks(text: &[u8], ticks_per_unit: u64) -> (r: Option<i64>)
    ensures
        r == ticks_of(text@, ticks_per_unit),
{
    let negative: bool = text.len() > 0 && text[0] == 45;
    let body: &[u8] = without_sign(text);
    let e: usize = find_exponent(body);
    let number: &[u8] = slice_subrange(body, 0, e);
    let x: Option<i64> = if e < body.len() {
        parse_exponent(slice_subrange(body, e + 1, body.len()))
    } else {
        Some(0)
    };
    let p: usize = find_point(number);
    let whole: &[u8] = slice_subrange(number, 0, p);
    let part: &[u8] = if p < number.len() {
        slice_subrange(number, p + 1, number.len())
    } else {
        slice_subrange(number, p, p)
    };
    proof {
        if p == number@.len() {
            assert(part@ =~= Seq::<u8>::empty());
        }
    }
    number_from(negative, whole, part, x, ticks_per_unit)
}

/// The byte is white space: a blank, a tab, or one of the bytes that end
/// or break a line.
pub open spec fn is_blank(b: u8) -> bool {
    b == 32 || (9 <= b <= 13)
}

/// The byte parts `s`: it ends a line, where lines are asked for, or is
/// white space, where fields are.
pub open spec fn parts(b: u8, lines: bool) -> bool {
    if lines {
        b == NEWLINE
    } else {
        is_blank(b)
    }
}

/// The pieces of `s`: the longest runs of bytes that do not part it. The
/// pieces of a text by lines are its lines that are not empty, and the
/// pieces of a line by fields are its fields.
pub open spec fn pieces(s: Seq<u8>, lines: bool) -> Seq<Seq<u8>>
    decreases s.len(),
{
    if s.len() == 0 {
        Seq::empty()
    } else if parts(s.last(), lines) {
        pieces(s.drop_last(), lines)
    } else if s.len() >= 2 && !parts(s[s.len() - 2], lines) {
        let front = pieces(s.drop_last(), lines);
        front.drop_last().push(front.last().push(s.last()))
    } else {
        pieces(s.drop_last(), lines).push(seq![s.last()])
    }
}

/// The pieces that are done, and behind them the one at hand where it
/// has a byte.
pub open spec fn with_open(done: Seq<Seq<u8>>, open: Seq<u8>) -> Seq<Seq<u8>> {
    if open.len() > 0 {
        done.push(open)
    } else {
        done
    }
}

/// The contents of the lists of bytes.
pub open spec fn contents(v: Seq<Vec<u8>>) -> Seq<Seq<u8>> {
    v.map_values(|p: Vec<u8>| p@)
}

/// Splits `text` into its pieces.
pub fn split(text: &[u8], lines: bool) -> (r: Vec<Vec<u8>>)
    ensures
        contents(r@) == pieces(text@, lines),
{
    let mut done: Vec<Vec<u8>> = Vec::new();
    let mut open: Vec<u8> = Vec::new();
    let mut i: usize = 0;
    assert(text@.take(0) =~= Seq::<u8>::empty());
    assert(contents(done@) =~= Seq::<Seq<u8>>::empty());
    while i < text.len()
        invariant
            i <= text@.len(),
            pieces(text@.take(i as int), lines) == with_open(contents(done@), open@),
            open@.len() > 0 <==> (i > 0 && !parts(text@[i - 1], lines)),
        decreases text.len() - i,
    {
        let b: u8 = text[i];
        let ghost front = text@.take(i as int);
        let ghost next = text@.take(i + 1);
        proof {
            assert(next.drop_last() =~= front);
            assert(next.last() == b);
            if i > 0 {
                assert(next[next.len() - 2] == text@[i - 1]);
            }
        }
        let parting: bool = if lines {
            b == NEWLINE
        } else {
            b == 32 || (9 <= b && b <= 13)
        };
        if parting {
            if open.len() > 0 {
                let ghost was = contents(done@);
                let ghost piece = open@;
                done.push(open);
                open = Vec::new();
                assert(contents(done@) =~= was.push(piece));
            }
        } else {
            let ghost was = open@;
            open.push(b);
            proof {
                if was.len() > 0 {
                    assert(contents(done@).push(was).drop_last() =~= contents(done@));
                } else {
                    assert(open@ =~= seq![b]);
                }
            }
        }
        i += 1;
    }
    assert(text@.take(text.len() as int) =~= text@);
    if open.len() > 0 {
        let ghost was = contents(done@);
        let ghost piece = open@;
        done.push(open);
        assert(contents(done@) =~= was.push(piece));
    }
    done
}

/// The lines `line(0)` to `line(upto - 1)`, one behind the other.
pub open spec fn joined(line: spec_fn(int) -> Seq<u8>, upto: int) -> Seq<u8>
    decreases upto,
{
    if upto <= 0 {
        Seq::empty()
    } else {
        joined(line, upto - 1) + line(upto - 1)
    }
}

/// Two texts with a tab between them.
pub open spec fn tabbed(a: Seq<u8>, b: Seq<u8>) -> Seq<u8> {
    a + seq![TAB] + b
}

/// A text with the end of the line behind it.
pub open spec fn ended(a: Seq<u8>) -> Seq<u8> {
    a + seq![NEWLINE]
}

/// The line of the bin at index `idx` of a 1D histogram: the middle value
/// of the bin, a tab, and the count. A bin without counts has no line.
pub open spec fn hist_1d_line(axes: HistAxis, counts: Seq<u64>, idx: int) -> Seq<u8> {
    if counts[idx] > 0 {
        ended(
            tabbed(
                decimal(Hist1d::val_of(axes, Hist1d::bin_at(axes, idx)) as int),
                digits(counts[idx] as nat),
            ),
        )
    } else {
        Seq::empty()
    }
}

/// The line of the bin at index `idx` of a 2D histogram: the middle values
/// of the bin along both axes and the count, with tabs between them. A bin
/// without counts has no line. An empty line stands where a new row of
/// bins starts, whether its first bin has counts or not.
pub open spec fn hist_2d_line(axes: (HistAxis, HistAxis), counts: Seq<u64>, idx: int) -> Seq<
    u8,
> {
    let val = Hist2d::val_of(axes, Hist2d::bin_at(axes, idx));
    let line = if counts[idx] > 0 {
        ended(
            tabbed(
                tabbed(decimal(val.0 as int), decimal(val.1 as int)),
                digits(counts[idx] as nat),
            ),
        )
    } else {
        Seq::empty()
    };
    if idx != 0 && idx % (axes.1.bins as int) == 0 {
        seq![NEWLINE] + line
    } else {
        line
    }
}

/// The line of the bin at index `idx` of a 3D histogram: the middle values
/// of the bin along the axes and the count, with tabs between them. A bin
/// without counts has no line.
pub open spec fn hist_3d_line(
    axes: (HistAxis, HistAxis, HistAxis),
    counts: Seq<u64>,
    idx: int,
) -> Seq<u8> {
    let val = Hist3d::val_of(axes, Hist3d::bin_at(axes, idx));
    if counts[idx] > 0 {
        ended(
            tabbed(
                tabbed(
                    tabbed(decimal(val.0 as int), decimal(val.1 as int)),
                    decimal(val.2 as int),
                ),
                digits(counts[idx] as nat),
            ),
        )
    } else {
        Seq::empty()
    }
}

/// The line of the bin at index `idx` of a 4D histogram: the middle values
/// of the bin along the axes and the count, with tabs between them. A bin
/// without counts has no line.
pub open spec fn hist_4d_line(
    axes: (HistAxis, HistAxis, HistAxis, HistAxis),
    counts: Seq<u64>,
    idx: int,
) -> Seq<u8> {
    let val = Hist4d::val_of(axes, Hist4d::bin_at(axes, idx));
    if counts[idx] > 0 {
        ended(
            tabbed(
                tabbed(
                    tabbed(
                        tabbed(decimal(val.0 as int), decimal(val.1 as int)),
                        decimal(val.2 as int),
                    ),
                    decimal(val.3 as int),
                ),
                digits(counts[idx] as nat),
            ),
        )
    } else {
        Seq::empty()
    }
}

/// The line of a point: its coordinate.
pub open spec fn point_1d_line(p: i64) -> Seq<u8> {
    ended(decimal(p as int))
}

/// The line of a point: its coordinates with a tab between them.
pub open spec fn point_2d_line(p: (i64, i64)) -> Seq<u8> {
    ended(tabbed(decimal(p.0 as int), decimal(p.1 as int)))
}

/// The line of a point: its coordinates with tabs between them.
pub open spec fn point_3d_line(p: (i64, i64, i64)) -> Seq<u8> {
    ended(tabbed(tabbed(decimal(p.0 as int), decimal(p.1 as int)), decimal(p.2 as int)))
}

/// The line of a point: its coordinates with tabs between them.
pub open spec fn point_4d_line(p: (i64, i64, i64, i64)) -> Seq<u8> {
    ended(
        tabbed(
            tabbed(tabbed(decimal(p.0 as int), decimal(p.1 as int)), decimal(p.2 as int)),
            decimal(p.3 as int),
        ),
    )
}

/// An interface for writing datakiste text data.
pub trait WriteDkTxt {
    /// What was written so far.
    spec fn written(&self) -> Seq<u8>;

    /// Writes a 1D histogram: one line for each bin that has counts.
    fn write_hist_1d_txt(&mut self, h: &Hist1d) -> (r: Result<(), DkError>)
        requires
            h.wf(),
        ensures
            r is Ok,
            final(self).written() == old(self).written() + joined(
                |i: int| hist_1d_line(h.spec_axes(), h.spec_counts(), i),
                h.spec_counts().len() as int,
            ),
    ;

    /// Writes a 2D histogram: one line for each bin that has counts, and
    /// an empty line between the rows of bins.
    fn write_hist_2d_txt(&mut self, h: &Hist2d) -> (r: Result<(), DkError>)
        requires
            h.wf(),
        ensures
            r is Ok,
            final(self).written() == old(self).written() + joined(
                |i: int| hist_2d_line(h.spec_axes(), h.spec_counts(), i),
                h.spec_counts().len() as int,
            ),
    ;

    /// Writes a 3D histogram: one line for each bin that has counts.
    fn write_hist_3d_txt(&mut self, h: &Hist3d) -> (r: Result<(), DkError>)
        requires
            h.wf(),
        ensures
            r is Ok,
            final(self).written() == old(self).written() + joined(
                |i: int| hist_3d_line(h.spec_axes(), h.spec_counts(), i),
                h.spec_counts().len() as int,
            ),
    ;

    /// Writes a 4D histogram: one line for each bin that has counts.
    fn write_hist_4d_txt(&mut self, h: &Hist4d) -> (r: Result<(), DkError>)
        requires
            h.wf(),
        ensures
            r is Ok,
            final(self).written() == old(self).written() + joined(
                |i: int| hist_4d_line(h.spec_axes(), h.spec_counts(), i),
                h.spec_counts().len() as int,
            ),
    ;

    /// Writes a set of 1D points: one line for each point.
    fn write_points_1d_txt(&mut self, p: &Points1d) -> (r: Result<(), DkError>)
        ensures
            r is Ok,
            final(self).written() == old(self).written() + joined(
                |i: int| point_1d_line(p.spec_points()[i]),
                p.spec_points().len() as int,
            ),
    ;

    /// Writes a set of 2D points: one line for each point.
    fn write_points_2d_txt(&mut self, p: &Points2d) -> (r: Result<(), DkError>)
        ensures
            r is Ok,
            final(self).written() == old(self).written() + joined(
                |i: int| point_2d_line(p.spec_points()[i]),
                p.spec_points().len() as int,
            ),
    ;

    /// Writes a set of 3D points: one line for each point.
    fn write_points_3d_txt(&mut self, p: &Points3d) -> (r: Result<(), DkError>)
        ensures
            r is Ok,
            final(self).written() == old(self).written() + joined(
                |i: int| point_3d_line(p.spec_points()[i]),
                p.spec_points().len() as int,
            ),
    ;

    /// Writes a set of 4D points: one line for each point.
    fn write_points_4d_txt(&mut self, p: &Points4d) -> (r: Result<(), DkError>)
        ensures
            r is Ok,
            final(self).written() == old(self).written() + joined(
                |i: int| point_4d_line(p.spec_points()[i]),
                p.spec_points().len() as int,
            ),
    ;
}

/// Appends a tab and the number `v`.
fn push_tab_decimal(out: &mut Vec<u8>, v: i64)
    ensures
        final(out)@ == old(out)@ + seq![TAB] + decimal(v as int),
{
    out.push(TAB);
    push_decimal(out, v);
    assert(old(out)@.push(TAB) =~= old(out)@ + seq![TAB]);
}

/// Appends a tab, the count `c`, and the end of the line.
fn push_count(out: &mut Vec<u8>, c: u64)
    ensures
        final(out)@ == old(out)@ + seq![TAB] + digits(c as nat) + seq![NEWLINE],
{
    out.push(TAB);
    push_digits(out, c);
    out.push(NEWLINE);
    assert(old(out)@.push(TAB) =~= old(out)@ + seq![TAB]);
    assert(final(out)@ =~= old(out)@ + seq![TAB] + digits(c as nat) + seq![NEWLINE]);
}

/// Appends the line of the bin at index `idx` of a 2D histogram to `out`.
fn push_hist_2d_line(out: &mut Vec<u8>, h: &Hist2d, idx: usize)
    requires
        h.wf(),
        idx < h.spec_counts().len(),
    ensures
        final(out)@ == old(out)@ + hist_2d_line(h.spec_axes(), h.spec_counts(), idx as int),
{
    let row: usize = h.axes().1.bins as usize;
    if (idx != 0) && (idx % row == 0) {
        out.push(NEWLINE);
    }
    let c: u64 = h.counts_at_idx(idx);
    if c > 0 {
        let val = h.val_at_idx(idx);
        push_decimal(out, val.0);
        push_tab_decimal(out, val.1);
        push_count(out, c);
    }
    assert(out@ =~= old(out)@ + hist_2d_line(h.spec_axes(), h.spec_counts(), idx as int));
}

impl WriteDkTxt for Vec<u8> {
    open spec fn written(&self) -> Seq<u8> {
        self@
    }

    fn write_hist_1d_txt(&mut self, h: &Hist1d) -> (r: Result<(), DkError>) {
        let n: usize = h.counts().len();
        let ghost line = |i: int| hist_1d_line(h.spec_axes(), h.spec_counts(), i);
        let mut idx: usize = 0;
        assert(self@ =~= old(self)@ + joined(line, 0));
        while idx < n
            invariant
                idx <= n,
                n == h.spec_counts().len(),
                h.wf(),
                line == (|i: int| hist_1d_line(h.spec_axes(), h.spec_counts(), i)),
                self@ == old(self)@ + joined(line, idx as int),
            decreases n - idx,
        {
            let ghost before = self@;
            let c: u64 = h.counts_at_idx(idx);
            if c > 0 {
                let val = h.val_at_idx(idx);
                push_decimal(self, val);
                push_count(self, c);
            }
            proof {
                assert(self@ =~= before + line(idx as int));
                assert(old(self)@ + joined(line, idx as int) + line(idx as int) =~= old(self)@
                    + (joined(line, idx as int) + line(idx as int)));
            }
            idx += 1;
        }
        Ok(())
    }

    fn write_hist_2d_txt(&mut self, h: &Hist2d) -> (r: Result<(), DkError>) {
        let n: usize = h.counts().len();
        let ghost line = |i: int| hist_2d_line(h.spec_axes(), h.spec_counts(), i);
        let mut idx: usize = 0;
        assert(self@ =~= old(self)@ + joined(line, 0));
        while idx < n
            invariant
                idx <= n,
                n == h.spec_counts().len(),
                h.wf(),
                line == (|i: int| hist_2d_line(h.spec_axes(), h.spec_counts(), i)),
                self@ == old(self)@ + joined(line, idx as int),
            decreases n - idx,
        {
            let ghost before = self@;
            push_hist_2d_line(self, h, idx);
            proof {
                assert(self@ == before + line(idx as int));
                assert(old(self)@ + joined(line, idx as int) + line(idx as int) =~= old(self)@
                    + (joined(line, idx as int) + line(idx as int)));
            }
            idx += 1;
        }
        Ok(())
    }

    fn write_hist_3d_txt(&mut self, h: &Hist3d) -> (r: Result<(), DkError>) {
        let n: usize = h.counts().len();
        let ghost line = |i: int| hist_3d_line(h.spec_axes(), h.spec_counts(), i);
        let mut idx: usize = 0;
        assert(self@ =~= old(self)@ + joined(line, 0));
        while idx < n
            invariant
                idx <= n,
                n == h.spec_counts().len(),
                h.wf(),
                line == (|i: int| hist_3d_line(h.spec_axes(), h.spec_counts(), i)),
                self@ == old(self)@ + joined(line, idx as int),
            decreases n - idx,
        {
            let ghost before = self@;
            let c: u64 = h.counts_at_idx(idx);
            if c > 0 {
                let val = h.val_at_idx(idx);
                push_decimal(self, val.0);
                push_tab_decimal(self, val.1);
                push_tab_decimal(self, val.2);
                push_count(self, c);
            }
            proof {
                assert(self@ =~= before + line(idx as int));
                assert(old(self)@ + joined(line, idx as int) + line(idx as int) =~= old(self)@
                    + (joined(line, idx as int) + line(idx as int)));
            }
            idx += 1;
        }
        Ok(())
    }

    fn write_hist_4d_txt(&mut self, h: &Hist4d) -> (r: Result<(), DkError>) {
        let n: usize = h.counts().len();
        let ghost line = |i: int| hist_4d_line(h.spec_axes(), h.spec_counts(), i);
        let mut idx: usize = 0;
        assert(self@ =~= old(self)@ + joined(line, 0));
        while idx < n
            invariant
                idx <= n,
                n == h.spec_counts().len(),
                h.wf(),
                line == (|i: int| hist_4d_line(h.spec_axes(), h.spec_counts(), i)),
                self@ == old(self)@ + joined(line, idx as int),
            decreases n - idx,
        {
            let ghost before = self@;
            let c: u64 = h.counts_at_idx(idx);
            if c > 0 {
                let val = h.val_at_idx(idx);
                push_decimal(self, val.0);
                push_tab_decimal(self, val.1);
                push_tab_decimal(self, val.2);
                push_tab_decimal(self, val.3);
                push_count(self, c);
            }
            proof {
                assert(self@ =~= before + line(idx as int));
                assert(old(self)@ + joined(line, idx as int) + line(idx as int) =~= old(self)@
                    + (joined(line, idx as int) + line(idx as int)));
            }
            idx += 1;
        }
        Ok(())
    }

    fn write_points_1d_txt(&mut self, p: &Points1d) -> (r: Result<(), DkError>) {
        let points = p.points();
        let ghost line = |i: int| point_1d_line(p.spec_points()[i]);
        let mut idx: usize = 0;
        assert(self@ =~= old(self)@ + joined(line, 0));
        while idx < points.len()
            invariant
                idx <= points@.len(),
                points@ == p.spec_points(),
                line == (|i: int| point_1d_line(p.spec_points()[i])),
                self@ == old(self)@ + joined(line, idx as int),
            decreases points.len() - idx,
        {
            let ghost before = self@;
            let point = points[idx];
            push_decimal(self, point);
            self.push(NEWLINE);
            proof {
                assert(self@ =~= before + line(idx as int));
                assert(old(self)@ + joined(line, idx as int) + line(idx as int) =~= old(self)@
                    + (joined(line, idx as int) + line(idx as int)));
            }
            idx += 1;
        }
        Ok(())
    }

    fn write_points_2d_txt(&mut self, p: &Points2d) -> (r: Result<(), DkError>) {
        let points = p.points();
        let ghost line = |i: int| point_2d_line(p.spec_points()[i]);
        let mut idx: usize = 0;
        assert(self@ =~= old(self)@ + joined(line, 0));
        while idx < points.len()
            invariant
                idx <= points@.len(),
                points@ == p.spec_points(),
                line == (|i: int| point_2d_line(p.spec_points()[i])),
                self@ == old(self)@ + joined(line, idx as int),
            decreases points.len() - idx,
        {
            let ghost before = self@;
            let point = points[idx];
            push_decimal(self, point.0);
            push_tab_decimal(self, point.1);
            self.push(NEWLINE);
            proof {
                assert(self@ =~= before + line(idx as int));
                assert(old(self)@ + joined(line, idx as int) + line(idx as int) =~= old(self)@
                    + (joined(line, idx as int) + line(idx as int)));
            }
            idx += 1;
        }
        Ok(())
    }

    fn write_points_3d_txt(&mut self, p: &Points3d) -> (r: Result<(), DkError>) {
        let points = p.points();
        let ghost line = |i: int| point_3d_line(p.spec_points()[i]);
        let mut idx: usize = 0;
        assert(self@ =~= old(self)@ + joined(line, 0));
        while idx < points.len()
            invariant
                idx <= points@.len(),
                points@ == p.spec_points(),
                line == (|i: int| point_3d_line(p.spec_points()[i])),
                self@ == old(self)@ + joined(line, idx as int),
            decreases points.len() - idx,
        {
            let ghost before = self@;
            let point = points[idx];
            push_decimal(self, point.0);
            push_tab_decimal(self, point.1);
            push_tab_decimal(self, point.2);
            self.push(NEWLINE);
            proof {
                assert(self@ =~= before + line(idx as int));
                assert(old(self)@ + joined(line, idx as int) + line(idx as int) =~= old(self)@
                    + (joined(line, idx as int) + line(idx as int)));
            }
            idx += 1;
        }
        Ok(())
    }

    fn write_points_4d_txt(&mut self, p: &Points4d) -> (r: Result<(), DkError>) {
        let points = p.points();
        let ghost line = |i: int| point_4d_line(p.spec_points()[i]);
        let mut idx: usize = 0;
        assert(self@ =~= old(self)@ + joined(line, 0));
        while idx < points.len()
            invariant
                idx <= points@.len(),
                points@ == p.spec_points(),
                line == (|i: int| point_4d_line(p.spec_points()[i])),
                self@ == old(self)@ + joined(line, idx as int),
            decreases points.len() - idx,
        {
            let ghost before = self@;
            let point = points[idx];
            push_decimal(self, point.0);
            push_tab_decimal(self, point.1);
            push_tab_decimal(self, point.2);
            push_tab_decimal(self, point.3);
            self.push(NEWLINE);
            proof {
                assert(self@ =~= before + line(idx as int));
                assert(old(self)@ + joined(line, idx as int) + line(idx as int) =~= old(self)@
                    + (joined(line, idx as int) + line(idx as int)));
            }
            idx += 1;
        }
        Ok(())
    }
}

/// The counts can take what a line gives: the line gives a bin and a
/// count, and the bin can hold the count on top of its own.
pub open spec fn takes(counts: Seq<u64>, entry: Option<(int, u64)>) -> bool {
    entry matches Some(e) && counts[e.0] + e.1 <= u64::MAX
}

/// The counts after a line was read: what the line gives is added where
/// the counts can take it. Any other line is passed over.
pub open spec fn with_entry(counts: Seq<u64>, entry: Option<(int, u64)>) -> Seq<u64> {
    match entry {
        Some(e) => if counts[e.0] + e.1 <= u64::MAX {
            counts.update(e.0, (counts[e.0] + e.1) as u64)
        } else {
            counts
        },
        None => counts,
    }
}

/// The line is passed over with a warning: it has the `least` fields that
/// are asked for, and the counts cannot take what it gives. A line with
/// fewer fields is passed over in silence.
pub open spec fn warns(line: Seq<u8>, least: int, counts: Seq<u64>, entry: Option<(int, u64)>)
    -> bool {
    pieces(line, false).len() >= least && !takes(counts, entry)
}

/// What the line `line` gives to a 1D histogram: the index of a bin and
/// a count, where the line has a value and a count as its first two fields.
pub open spec fn entry_1d(axes: HistAxis, line: Seq<u8>, ticks_per_unit: u64) -> Option<(int, u64)> {
    let fields = pieces(line, false);
    if fields.len() < 2 {
        None
    } else {
        match (ticks_of(fields[0], ticks_per_unit), count_of(fields[1])) {
            (Some(x), Some(y)) => Some((Hist1d::idx_of(axes, Hist1d::bin_of(axes, x)), y)),
            _ => None,
        }
    }
}

/// The counts after the first `upto` of the lines were read into a 1D
/// histogram, one after the other.
pub open spec fn lines_1d(
    axes: HistAxis,
    counts: Seq<u64>,
    lines: Seq<Seq<u8>>,
    ticks_per_unit: u64,
    upto: int,
) -> Seq<u64>
    decreases upto,
{
    if upto <= 0 {
        counts
    } else {
        with_entry(
            lines_1d(axes, counts, lines, ticks_per_unit, upto - 1),
            entry_1d(axes, lines[upto - 1], ticks_per_unit),
        )
    }
}

/// How many of the first `upto` of the lines are passed over with a
/// warning, when they are read into a 1D histogram one after the other.
pub open spec fn warned_1d(
    axes: HistAxis,
    counts: Seq<u64>,
    lines: Seq<Seq<u8>>,
    ticks_per_unit: u64,
    upto: int,
) -> nat
    decreases upto,
{
    if upto <= 0 {
        0
    } else {
        let before = warned_1d(axes, counts, lines, ticks_per_unit, upto - 1);
        if warns(
            lines[upto - 1],
            2,
            lines_1d(axes, counts, lines, ticks_per_unit, upto - 1),
            entry_1d(axes, lines[upto - 1], ticks_per_unit),
        ) {
            before + 1
        } else {
            before
        }
    }
}

/// What the line `line` gives to a 2D histogram: the index of a bin and
/// a count, where the line has two values and a count as its first three fields.
pub open spec fn entry_2d(axes: (HistAxis, HistAxis), line: Seq<u8>, ticks_per_unit: u64) -> Option<(int, u64)> {
    let fields = pieces(line, false);
    if fields.len() < 3 {
        None
    } else {
        match (
            ticks_of(fields[0], ticks_per_unit),
            ticks_of(fields[1], ticks_per_unit),
            count_of(fields[2]),
        ) {
            (Some(x), Some(y), Some(z)) => Some((Hist2d::idx_of(axes, Hist2d::bin_of(axes, (x, y))), z)),
            _ => None,
        }
    }
}

/// The counts after the first `upto` of the lines were read into a 2D
/// histogram, one after the other.
pub open spec fn lines_2d(
    axes: (HistAxis, HistAxis),
    counts: Seq<u64>,
    lines: Seq<Seq<u8>>,
    ticks_per_unit: u64,
    upto: int,
) -> Seq<u64>
    decreases upto,
{
    if upto <= 0 {
        counts
    } else {
        with_entry(
            lines_2d(axes, counts, lines, ticks_per_unit, upto - 1),
            entry_2d(axes, lines[upto - 1], ticks_per_unit),
        )
    }
}

/// How many of the first `upto` of the lines are passed over with a
/// warning, when they are read into a 2D histogram one after the other.
pub open spec fn warned_2d(
    axes: (HistAxis, HistAxis),
    counts: Seq<u64>,
    lines: Seq<Seq<u8>>,
    ticks_per_unit: u64,
    upto: int,
) -> nat
    decreases upto,
{
    if upto <= 0 {
        0
    } else {
        let before = warned_2d(axes, counts, lines, ticks_per_unit, upto - 1);
        if warns(
            lines[upto - 1],
            3,
            lines_2d(axes, counts, lines, ticks_per_unit, upto - 1),
            entry_2d(axes, lines[upto - 1], ticks_per_unit),
        ) {
            before + 1
        } else {
            before
        }
    }
}

/// An interface for reading datakiste text data.
pub trait ReadDkTxt {
    /// What is left to read.
    spec fn left(&self) -> Seq<u8>;

    /// Reads text 1D histogram data into `h`: all lines that are left, each
    /// as `entry_1d` says, with `ticks_per_unit` ticks to the unit of the
    /// values. Returns the number of lines that were passed over with a
    /// warning.
    fn read_to_hist_1d_txt_scaled(&mut self, h: &mut Hist1d, ticks_per_unit: u64) -> (r: Result<
        usize,
        DkError,
    >)
        requires
            old(h).wf(),
        ensures
            final(self).left().len() == 0,
            final(h).spec_axes() == old(h).spec_axes(),
            final(h).spec_counts() == lines_1d(
                old(h).spec_axes(),
                old(h).spec_counts(),
                pieces(old(self).left(), true),
                ticks_per_unit,
                pieces(old(self).left(), true).len() as int,
            ),
            r matches Ok(n) && n == warned_1d(
                old(h).spec_axes(),
                old(h).spec_counts(),
                pieces(old(self).left(), true),
                ticks_per_unit,
                pieces(old(self).left(), true).len() as int,
            ),
    ;

    /// Reads text 1D histogram data into `h`, with values that are written
    /// in ticks.
    fn read_to_hist_1d_txt(&mut self, h: &mut Hist1d) -> (r: Result<usize, DkError>)
        requires
            old(h).wf(),
        ensures
            final(self).left().len() == 0,
            final(h).spec_axes() == old(h).spec_axes(),
            final(h).spec_counts() == lines_1d(
                old(h).spec_axes(),
                old(h).spec_counts(),
                pieces(old(self).left(), true),
                1,
                pieces(old(self).left(), true).len() as int,
            ),
            r matches Ok(n) && n == warned_1d(
                old(h).spec_axes(),
                old(h).spec_counts(),
                pieces(old(self).left(), true),
                1,
                pieces(old(self).left(), true).len() as int,
            ),
    {
        self.read_to_hist_1d_txt_scaled(h, 1)
    }

    /// Reads text 2D histogram data into `h`: all lines that are left, each
    /// as `entry_2d` says, with `ticks_per_unit` ticks to the unit of the
    /// values. Returns the number of lines that were passed over with a
    /// warning.
    fn read_to_hist_2d_txt_scaled(&mut self, h: &mut Hist2d, ticks_per_unit: u64) -> (r: Result<
        usize,
        DkError,
    >)
        requires
            old(h).wf(),
        ensures
            final(self).left().len() == 0,
            final(h).spec_axes() == old(h).spec_axes(),
            final(h).spec_counts() == lines_2d(
                old(h).spec_axes(),
                old(h).spec_counts(),
                pieces(old(self).left(), true),
                ticks_per_unit,
                pieces(old(self).left(), true).len() as int,
            ),
            r matches Ok(n) && n == warned_2d(
                old(h).spec_axes(),
                old(h).spec_counts(),
                pieces(old(self).left(), true),
                ticks_per_unit,
                pieces(old(self).left(), true).len() as int,
            ),
    ;

    /// Reads text 2D histogram data into `h`, with values that are written
    /// in ticks.
    fn read_to_hist_2d_txt(&mut self, h: &mut Hist2d) -> (r: Result<usize, DkError>)
        requires
            old(h).wf(),
        ensures
            final(self).left().len() == 0,
            final(h).spec_axes() == old(h).spec_axes(),
            final(h).spec_counts() == lines_2d(
                old(h).spec_axes(),
                old(h).spec_counts(),
                pieces(old(self).left(), true),
                1,
                pieces(old(self).left(), true).len() as int,
            ),
            r matches Ok(n) && n == warned_2d(
                old(h).spec_axes(),
                old(h).spec_counts(),
                pieces(old(self).left(), true),
                1,
                pieces(old(self).left(), true).len() as int,
            ),
    {
        self.read_to_hist_2d_txt_scaled(h, 1)
    }
}

impl<'a> ReadDkTxt for &'a [u8] {
    open spec fn left(&self) -> Seq<u8> {
        self@
    }

    fn read_to_hist_1d_txt_scaled(&mut self, h: &mut Hist1d, ticks_per_unit: u64) -> (r: Result<
        usize,
        DkError,
    >) {
        let text: &'a [u8] = *self;
        let lines = split(text, true);
        let ghost axes = h.spec_axes();
        let ghost start = h.spec_counts();
        let ghost ls = pieces(text@, true);
        let mut warned: usize = 0;
        let mut i: usize = 0;
        while i < lines.len()
            invariant
                i <= lines@.len(),
                contents(lines@) == ls,
                h.wf(),
                h.spec_axes() == axes,
                h.spec_counts() == lines_1d(axes, start, ls, ticks_per_unit, i as int),
                warned == warned_1d(axes, start, ls, ticks_per_unit, i as int),
                warned <= i,
            decreases lines.len() - i,
        {
            let fields = split(lines[i].as_slice(), false);
            proof {
                assert(ls[i as int] == lines@[i as int]@);
                Hist1d::lemma_bins(axes);
            }
            if fields.len() >= 2 {
                let mut taken: bool = false;
                let x = parse_ticks(fields[0].as_slice(), ticks_per_unit);
                let y = parse_count(fields[1].as_slice());
                proof {
                    assert(contents(fields@)[0] == fields@[0]@);
                    assert(contents(fields@)[1] == fields@[1]@);
                }
                match (x, y) {
                    (Some(x), Some(y)) => {
                        let idx = h.idx_at_val(x);
                        if y <= u64::MAX - h.counts_at_idx(idx) {
                            h.fill_at_idx_with_counts(idx, y);
                            taken = true;
                        }
                    },
                    _ => {},
                }
                if !taken {
                    warned += 1;
                }
            }
            i += 1;
        }
        *self = slice_subrange(text, text.len(), text.len());
        Ok(warned)
    }

    fn read_to_hist_2d_txt_scaled(&mut self, h: &mut Hist2d, ticks_per_unit: u64) -> (r: Result<
        usize,
        DkError,
    >) {
        let text: &'a [u8] = *self;
        let lines = split(text, true);
        let ghost axes = h.spec_axes();
        let ghost start = h.spec_counts();
        let ghost ls = pieces(text@, true);
        let mut warned: usize = 0;
        let mut i: usize = 0;
        while i < lines.len()
            invariant
                i <= lines@.len(),
                contents(lines@) == ls,
                h.wf(),
                h.spec_axes() == axes,
                h.spec_counts() == lines_2d(axes, start, ls, ticks_per_unit, i as int),
                warned == warned_2d(axes, start, ls, ticks_per_unit, i as int),
                warned <= i,
            decreases lines.len() - i,
        {
            let fields = split(lines[i].as_slice(), false);
            proof {
                assert(ls[i as int] == lines@[i as int]@);
                Hist2d::lemma_bins(axes);
            }
            if fields.len() >= 3 {
                let mut taken: bool = false;
                let x = parse_ticks(fields[0].as_slice(), ticks_per_unit);
                let y = parse_ticks(fields[1].as_slice(), ticks_per_unit);
                let z = parse_count(fields[2].as_slice());
                proof {
                    assert(contents(fields@)[0] == fields@[0]@);
                    assert(contents(fields@)[1] == fields@[1]@);
                    assert(contents(fields@)[2] == fields@[2]@);
                }
                match (x, y, z) {
                    (Some(x), Some(y), Some(z)) => {
                        let idx = h.idx_at_val((x, y));
                        if z <= u64::MAX - h.counts_at_idx(idx) {
                            h.fill_at_idx_with_counts(idx, z);
                            taken = true;
                        }
                    },
                    _ => {},
                }
                if !taken {
                    warned += 1;
                }
            }
            i += 1;
        }
        *self = slice_subrange(text, text.len(), text.len());
        Ok(warned)
    }
}

} // verus!
