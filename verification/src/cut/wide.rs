//! Whole numbers of any size, for the comparisons of a cut that do not fit
//! in 128 bits. A number is a list of limbs of 32 bits, the least first.

use vstd::prelude::*;

verus! {

/// The number of values of a limb.
pub const BASE: u64 = 0x1_0000_0000;

/// The number that the limbs of `s` from index `i` on write, the least
/// first, with the number `t` behind the last of them.
pub open spec fn value_from(s: Seq<u32>, i: int, t: nat) -> nat
    decreases s.len() - i,
{
    if i < 0 || i >= s.len() {
        t
    } else {
        s[i] as nat + 0x1_0000_0000 * value_from(s, i + 1, t)
    }
}

/// The number that the limbs of `s` write.
pub open spec fn value(s: Seq<u32>) -> nat {
    value_from(s, 0, 0)
}

/// A limb behind the last one stands in front of what was behind it.
pub proof fn lemma_value_push(s: Seq<u32>, x: u32, i: int, t: nat)
    requires
        0 <= i <= s.len(),
    ensures
        value_from(s.push(x), i, t) == value_from(s, i, x as nat + 0x1_0000_0000 * t),
    decreases s.len() - i,
{
    if i < s.len() {
        lemma_value_push(s, x, i + 1, t);
        assert(s.push(x)[i] == s[i]);
    } else {
        assert(s.push(x)[i] == x);
        assert(value_from(s.push(x), i + 1, t) == t);
    }
}

/// With a limb put in front, the limbs behind it write what they wrote.
pub proof fn lemma_value_behind(s: Seq<u32>, x: u32, i: int, t: nat)
    requires
        0 <= i <= s.len(),
    ensures
        value_from(s.insert(0, x), i + 1, t) == value_from(s, i, t),
    decreases s.len() - i,
{
    if i < s.len() {
        lemma_value_behind(s, x, i + 1, t);
        assert(s.insert(0, x)[i + 1] == s[i]);
    }
}

/// Returns the limbs of `x`.
pub fn from_u128(x: u128) -> (r: Vec<u32>)
    ensures
        value(r@) == x,
{
    let mut out: Vec<u32> = Vec::new();
    let mut rest: u128 = x;
    while rest > 0
        invariant
            value_from(out@, 0, rest as nat) == x,
        decreases rest,
    {
        let low: u32 = (rest % 0x1_0000_0000) as u32;
        proof {
            lemma_value_push(out@, low, 0, (rest / 0x1_0000_0000) as nat);
        }
        out.push(low);
        rest = rest / 0x1_0000_0000;
    }
    out
}

/// The limb of `s` at index `i`, and 0 where it has none there.
fn limb(s: &Vec<u32>, i: usize) -> (r: u64)
    ensures
        r == if i < s@.len() {
            s@[i as int]
        } else {
            0
        },
        value_from(s@, i as int, 0) == r + 0x1_0000_0000 * value_from(s@, i + 1, 0),
{
    if i < s.len() {
        s[i] as u64
    } else {
        0
    }
}

/// Returns `y * m + z`.
pub fn scaled_sum(y: &Vec<u32>, m: u32, z: &Vec<u32>) -> (r: Vec<u32>)
    ensures
        value(r@) == value(y@) * m + value(z@),
{
    let n: usize = if y.len() > z.len() {
        y.len()
    } else {
        z.len()
    };
    let ghost goal = value(y@) * m + value(z@);
    let mut out: Vec<u32> = Vec::new();
    let mut carry: u64 = 0;
    let mut i: usize = 0;
    while i < n
        invariant
            i <= n,
            y@.len() <= n,
            z@.len() <= n,
            carry < 0x1_0000_0000,
            value_from(
                out@,
                0,
                (value_from(y@, i as int, 0) * m + value_from(z@, i as int, 0) + carry) as nat,
            ) == goal,
        decreases n - i,
    {
        let yi: u64 = limb(y, i);
        let zi: u64 = limb(z, i);
        assert(yi * m <= 0xffff_ffff * 0xffff_ffff) by (nonlinear_arith)
            requires
                yi <= 0xffff_ffff,
                m <= 0xffff_ffff,
        ;
        let t: u64 = yi * (m as u64) + zi + carry;
        let low: u32 = (t % BASE) as u32;
        let ghost behind = value_from(y@, i + 1, 0) * m + value_from(z@, i + 1, 0) + t / BASE;
        proof {
            lemma_value_push(out@, low, 0, behind as nat);
            let yb = value_from(y@, i + 1, 0) as int;
            assert((yi + 0x1_0000_0000 * yb) * m == yi * m + 0x1_0000_0000 * (yb * m))
                by (nonlinear_arith);
            assert(yb * m >= 0) by (nonlinear_arith)
                requires
                    yb >= 0,
                    m >= 0,
            ;
        }
        out.push(low);
        carry = t / BASE;
        i += 1;
    }
    proof {
        lemma_value_push(out@, carry as u32, 0, 0);
        assert(value_from(y@, i as int, 0) * m == 0) by (nonlinear_arith)
            requires
                value_from(y@, i as int, 0) == 0,
        ;
    }
    out.push(carry as u32);
    out
}

/// Returns `x * y`.
pub fn product(x: &Vec<u32>, y: &Vec<u32>) -> (r: Vec<u32>)
    ensures
        value(r@) == value(x@) * value(y@),
{
    let mut acc: Vec<u32> = Vec::new();
    let mut i: usize = x.len();
    proof {
        assert(value_from(x@, i as int, 0) * value(y@) == 0) by (nonlinear_arith)
            requires
                value_from(x@, i as int, 0) == 0,
        ;
    }
    while i > 0
        invariant
            i <= x@.len(),
            value(acc@) == value_from(x@, i as int, 0) * value(y@),
        decreases i,
    {
        i -= 1;
        let ghost was = acc@;
        acc.insert(0, 0);
        proof {
            lemma_value_behind(was, 0, 0, 0);
            let xb = value_from(x@, i + 1, 0) as int;
            let v = value(y@) as int;
            assert((x@[i as int] + 0x1_0000_0000 * xb) * v == v * x@[i as int] + 0x1_0000_0000 * (
            xb * v)) by (nonlinear_arith);
        }
        acc = scaled_sum(y, x[i], &acc);
    }
    acc
}

/// Returns `x + y`.
pub fn sum(x: &Vec<u32>, y: &Vec<u32>) -> (r: Vec<u32>)
    ensures
        value(r@) == value(x@) + value(y@),
{
    scaled_sum(x, 1, y)
}

/// Tells whether `a < b`.
pub fn less(a: &Vec<u32>, b: &Vec<u32>) -> (r: bool)
    ensures
        r == (value(a@) < value(b@)),
{
    let n: usize = if a.len() > b.len() {
        a.len()
    } else {
        b.len()
    };
    let mut below: bool = false;
    let mut same: bool = true;
    let mut i: usize = n;
    while i > 0
        invariant
            i <= n,
            a@.len() <= n,
            b@.len() <= n,
            below == (value_from(a@, i as int, 0) < value_from(b@, i as int, 0)),
            same == (value_from(a@, i as int, 0) == value_from(b@, i as int, 0)),
        decreases i,
    {
        i -= 1;
        let ai: u64 = limb(a, i);
        let bi: u64 = limb(b, i);
        if same {
            below = ai < bi;
            same = ai == bi;
        }
    }
    below
}

} // verus!
