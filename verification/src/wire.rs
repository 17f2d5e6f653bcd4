//! The binary layout of values: little-endian numbers of fixed width, and
//! lists with their length in front.

use crate::error::DkError;
use vstd::bytes::{
    lemma_auto_spec_u16_to_from_le_bytes, lemma_auto_spec_u32_to_from_le_bytes,
    lemma_auto_spec_u64_to_from_le_bytes, spec_u16_from_le_bytes, spec_u16_to_le_bytes,
    spec_u32_from_le_bytes, spec_u32_to_le_bytes, spec_u64_from_le_bytes, spec_u64_to_le_bytes,
    u16_from_le_bytes, u16_to_le_bytes, u32_from_le_bytes, u32_to_le_bytes, u64_from_le_bytes,
    u64_to_le_bytes,
};
use vstd::prelude::*;
use vstd::slice::slice_subrange;

verus! {

/// A value with a binary layout.
///
/// The layout is stated over the model of the value, which says what the
/// value holds: `ser` lays a model out in bytes, and `parse` reads one
/// from the bytes that start at a position.
pub trait Wire: Sized {
    /// What a value holds.
    type Model;

    /// What this value holds.
    spec fn model(&self) -> Self::Model;

    /// A value of this model is read back from its bytes as it is.
    spec fn storable(m: Self::Model) -> bool;

    /// The bytes of a value.
    spec fn ser(m: Self::Model) -> Seq<u8>;

    /// The value that the bytes of `s` from `pos` on start with, and the
    /// position behind it; or why there is none.
    spec fn parse(s: Seq<u8>, pos: int) -> Result<(Self::Model, int), DkError>;

    /// A number of bytes that every value takes at the least.
    spec fn least_len() -> nat;

    /// A value takes at least one byte, and lies within the bytes it was
    /// read from.
    proof fn lemma_parse(s: Seq<u8>, pos: int)
        requires
            0 <= pos <= s.len(),
        ensures
            Self::least_len() >= 1,
            Self::parse(s, pos) matches Ok(r) ==> pos + Self::least_len() <= r.1 <= s.len(),
    ;

    /// What was written is read back: the bytes of a storable value,
    /// whatever stands before and behind them, are parsed as that value.
    proof fn lemma_round_trip(m: Self::Model, before: Seq<u8>, after: Seq<u8>)
        requires
            Self::storable(m),
        ensures
            Self::ser(m).len() >= Self::least_len(),
            Self::parse(before + Self::ser(m) + after, before.len() as int) == Ok::<
                (Self::Model, int),
                DkError,
            >((m, (before.len() + Self::ser(m).len()) as int)),
    ;

    /// Returns a number of bytes that every value takes at the least.
    fn least() -> (n: usize)
        ensures
            n == Self::least_len(),
            n >= 1,
    ;

    /// Appends the bytes of the value to `out`.
    fn write(&self, out: &mut Vec<u8>)
        ensures
            final(out)@ == old(out)@ + Self::ser(self.model()),
    ;

    /// Reads a value from `bytes` at `pos`, and returns it with the
    /// position behind it.
    fn read(bytes: &[u8], pos: usize) -> (r: Result<(Self, usize), DkError>)
        requires
            pos <= bytes@.len(),
        ensures
            match r {
                Ok(v) => Self::parse(bytes@, pos as int) == Ok::<(Self::Model, int), DkError>(
                    (v.0.model(), v.1 as int),
                ),
                Err(e) => Self::parse(bytes@, pos as int) == Err::<(Self::Model, int), DkError>(
                    e,
                ),
            },
    ;
}

/// The `n` bytes of `s` from `pos` on, where `s` has as many.
pub open spec fn field(s: Seq<u8>, pos: int, n: int) -> Option<Seq<u8>> {
    if 0 <= pos && pos + n <= s.len() {
        Some(s.subrange(pos, pos + n))
    } else {
        None
    }
}

/// In the middle of `before + mid + after` stands `mid`.
pub proof fn lemma_field_of_concat(before: Seq<u8>, mid: Seq<u8>, after: Seq<u8>)
    ensures
        field(before + mid + after, before.len() as int, mid.len() as int) == Some(mid),
{
    assert((before + mid + after).subrange(
        before.len() as int,
        (before.len() + mid.len()) as int,
    )
        =~= mid);
}

impl Wire for u16 {
    type Model = u16;

    open spec fn model(&self) -> u16 {
        *self
    }

    open spec fn storable(m: u16) -> bool {
        true
    }

    open spec fn ser(m: u16) -> Seq<u8> {
        spec_u16_to_le_bytes(m)
    }

    open spec fn parse(s: Seq<u8>, pos: int) -> Result<(u16, int), DkError> {
        match field(s, pos, 2) {
            Some(b) => Ok((spec_u16_from_le_bytes(b), pos + 2)),
            None => Err(DkError::InvalidFormat),
        }
    }

    open spec fn least_len() -> nat {
        2
    }

    proof fn lemma_parse(s: Seq<u8>, pos: int) {
    }

    proof fn lemma_round_trip(m: u16, before: Seq<u8>, after: Seq<u8>) {
        lemma_auto_spec_u16_to_from_le_bytes();
        lemma_field_of_concat(before, Self::ser(m), after);
    }

    fn least() -> (n: usize) {
        2
    }

    fn write(&self, out: &mut Vec<u8>) {
        let mut b = u16_to_le_bytes(*self);
        out.append(&mut b);
    }

    fn read(bytes: &[u8], pos: usize) -> (r: Result<(u16, usize), DkError>) {
        if bytes.len() - pos < 2 {
            return Err(DkError::InvalidFormat);
        }
        Ok((u16_from_le_bytes(slice_subrange(bytes, pos, pos + 2)), pos + 2))
    }
}

impl Wire for u32 {
    type Model = u32;

    open spec fn model(&self) -> u32 {
        *self
    }

    open spec fn storable(m: u32) -> bool {
        true
    }

    open spec fn ser(m: u32) -> Seq<u8> {
        spec_u32_to_le_bytes(m)
    }

    open spec fn parse(s: Seq<u8>, pos: int) -> Result<(u32, int), DkError> {
        match field(s, pos, 4) {
            Some(b) => Ok((spec_u32_from_le_bytes(b), pos + 4)),
            None => Err(DkError::InvalidFormat),
        }
    }

    open spec fn least_len() -> nat {
        4
    }

    proof fn lemma_parse(s: Seq<u8>, pos: int) {
    }

    proof fn lemma_round_trip(m: u32, before: Seq<u8>, after: Seq<u8>) {
        lemma_auto_spec_u32_to_from_le_bytes();
        lemma_field_of_concat(before, Self::ser(m), after);
    }

    fn least() -> (n: usize) {
        4
    }

    fn write(&self, out: &mut Vec<u8>) {
        let mut b = u32_to_le_bytes(*self);
        out.append(&mut b);
    }

    fn read(bytes: &[u8], pos: usize) -> (r: Result<(u32, usize), DkError>) {
        if bytes.len() - pos < 4 {
            return Err(DkError::InvalidFormat);
        }
        Ok((u32_from_le_bytes(slice_subrange(bytes, pos, pos + 4)), pos + 4))
    }
}

impl Wire for u64 {
    type Model = u64;

    open spec fn model(&self) -> u64 {
        *self
    }

    open spec fn storable(m: u64) -> bool {
        true
    }

    open spec fn ser(m: u64) -> Seq<u8> {
        spec_u64_to_le_bytes(m)
    }

    open spec fn parse(s: Seq<u8>, pos: int) -> Result<(u64, int), DkError> {
        match field(s, pos, 8) {
            Some(b) => Ok((spec_u64_from_le_bytes(b), pos + 8)),
            None => Err(DkError::InvalidFormat),
        }
    }

    open spec fn least_len() -> nat {
        8
    }

    proof fn lemma_parse(s: Seq<u8>, pos: int) {
    }

    proof fn lemma_round_trip(m: u64, before: Seq<u8>, after: Seq<u8>) {
        lemma_auto_spec_u64_to_from_le_bytes();
        lemma_field_of_concat(before, Self::ser(m), after);
    }

    fn least() -> (n: usize) {
        8
    }

    fn write(&self, out: &mut Vec<u8>) {
        let mut b = u64_to_le_bytes(*self);
        out.append(&mut b);
    }

    fn read(bytes: &[u8], pos: usize) -> (r: Result<(u64, usize), DkError>) {
        if bytes.len() - pos < 8 {
            return Err(DkError::InvalidFormat);
        }
        Ok((u64_from_le_bytes(slice_subrange(bytes, pos, pos + 8)), pos + 8))
    }
}

/// The 64-bit word that holds `v` in two's complement.
pub open spec fn word_of(v: i64) -> u64 {
    if v < 0 {
        (v + 0x1_0000_0000_0000_0000) as u64
    } else {
        v as u64
    }
}

/// The number that the 64-bit word `w` holds in two's complement.
pub open spec fn value_of(w: u64) -> i64 {
    if w >= 0x8000_0000_0000_0000 {
        (w - 0x1_0000_0000_0000_0000) as i64
    } else {
        w as i64
    }
}

impl Wire for i64 {
    type Model = i64;

    open spec fn model(&self) -> i64 {
        *self
    }

    open spec fn storable(m: i64) -> bool {
        true
    }

    open spec fn ser(m: i64) -> Seq<u8> {
        spec_u64_to_le_bytes(word_of(m))
    }

    open spec fn parse(s: Seq<u8>, pos: int) -> Result<(i64, int), DkError> {
        match field(s, pos, 8) {
            Some(b) => Ok((value_of(spec_u64_from_le_bytes(b)), pos + 8)),
            None => Err(DkError::InvalidFormat),
        }
    }

    open spec fn least_len() -> nat {
        8
    }

    proof fn lemma_parse(s: Seq<u8>, pos: int) {
    }

    proof fn lemma_round_trip(m: i64, before: Seq<u8>, after: Seq<u8>) {
        lemma_auto_spec_u64_to_from_le_bytes();
        lemma_field_of_concat(before, Self::ser(m), after);
    }

    fn least() -> (n: usize) {
        8
    }

    fn write(&self, out: &mut Vec<u8>) {
        let w: u64 = if *self < 0 {
            (*self as i128 + 0x1_0000_0000_0000_0000) as u64
        } else {
            *self as u64
        };
        let mut b = u64_to_le_bytes(w);
        out.append(&mut b);
    }

    fn read(bytes: &[u8], pos: usize) -> (r: Result<(i64, usize), DkError>) {
        if bytes.len() - pos < 8 {
            return Err(DkError::InvalidFormat);
        }
        let w: u64 = u64_from_le_bytes(slice_subrange(bytes, pos, pos + 8));
        let v: i64 = if w >= 0x8000_0000_0000_0000 {
            (w as i128 - 0x1_0000_0000_0000_0000) as i64
        } else {
            w as i64
        };
        Ok((v, pos + 8))
    }
}

/// The bytes of the values `ms`, one behind the other.
pub open spec fn ser_all<T: Wire>(ms: Seq<T::Model>) -> Seq<u8>
    decreases ms.len(),
{
    if ms.len() == 0 {
        Seq::empty()
    } else {
        T::ser(ms.first()) + ser_all::<T>(ms.drop_first())
    }
}

/// The `n` values that the bytes of `s` from `pos` on start with, one
/// behind the other, and the position behind them; or why the first that
/// cannot be read cannot.
pub open spec fn parse_all<T: Wire>(s: Seq<u8>, pos: int, n: nat) -> Result<
    (Seq<T::Model>, int),
    DkError,
>
    decreases n,
{
    if n == 0 {
        Ok((Seq::empty(), pos))
    } else {
        match T::parse(s, pos) {
            Err(e) => Err(e),
            Ok(first) => match parse_all::<T>(s, first.1, (n - 1) as nat) {
                Err(e) => Err(e),
                Ok(rest) => Ok((seq![first.0] + rest.0, rest.1)),
            },
        }
    }
}

/// What is put behind the values that were read so far: the outcome of
/// reading on, with those values in front.
pub open spec fn read_on<M>(done: Seq<M>, more: Result<(Seq<M>, int), DkError>) -> Result<
    (Seq<M>, int),
    DkError,
> {
    match more {
        Err(e) => Err(e),
        Ok(rest) => Ok((done + rest.0, rest.1)),
    }
}

/// Values that were read lie within the bytes, each taking its least
/// length or more.
pub proof fn lemma_parse_all<T: Wire>(s: Seq<u8>, pos: int, n: nat)
    requires
        0 <= pos <= s.len(),
    ensures
        parse_all::<T>(s, pos, n) matches Ok(r) ==> pos + n * T::least_len() <= r.1 <= s.len()
            && r.0.len() == n,
    decreases n,
{
    if n > 0 {
        T::lemma_parse(s, pos);
        if let Ok(first) = T::parse(s, pos) {
            lemma_parse_all::<T>(s, first.1, (n - 1) as nat);
            assert(n * T::least_len() == (n - 1) * T::least_len() + T::least_len())
                by (nonlinear_arith);
        }
    }
}

/// Reading `n` values is reading one and then the others.
pub proof fn lemma_parse_all_step<T: Wire>(s: Seq<u8>, pos: int, n: nat)
    requires
        n > 0,
    ensures
        parse_all::<T>(s, pos, n) == match T::parse(s, pos) {
            Err(e) => Err(e),
            Ok(first) => read_on(seq![first.0], parse_all::<T>(s, first.1, (n - 1) as nat)),
        },
{
}

/// The bytes of values with one more behind them.
pub proof fn lemma_ser_all_push<T: Wire>(ms: Seq<T::Model>, m: T::Model)
    ensures
        ser_all::<T>(ms.push(m)) == ser_all::<T>(ms) + T::ser(m),
    decreases ms.len(),
{
    if ms.len() == 0 {
        assert(ms.push(m).drop_first() =~= ms);
        assert(ser_all::<T>(ms.push(m)) =~= T::ser(m) + ser_all::<T>(ms));
        assert(ser_all::<T>(ms) + T::ser(m) =~= T::ser(m));
    } else {
        lemma_ser_all_push::<T>(ms.drop_first(), m);
        assert(ms.push(m).drop_first() =~= ms.drop_first().push(m));
        assert(T::ser(ms.first()) + (ser_all::<T>(ms.drop_first()) + T::ser(m)) =~= (T::ser(
            ms.first(),
        ) + ser_all::<T>(ms.drop_first())) + T::ser(m));
    }
}

/// The bytes of storable values take at least the least length each, and
/// are read back as those values, whatever stands before and behind them.
pub proof fn lemma_all_round_trip<T: Wire>(ms: Seq<T::Model>, before: Seq<u8>, after: Seq<u8>)
    requires
        forall|i: int| 0 <= i < ms.len() ==> T::storable(#[trigger] ms[i]),
    ensures
        ser_all::<T>(ms).len() >= ms.len() * T::least_len(),
        parse_all::<T>(before + ser_all::<T>(ms) + after, before.len() as int, ms.len())
            == Ok::<(Seq<T::Model>, int), DkError>(
            (ms, (before.len() + ser_all::<T>(ms).len()) as int),
        ),
    decreases ms.len(),
{
    if ms.len() == 0 {
        assert(ms =~= Seq::<T::Model>::empty());
        assert(ms.len() * T::least_len() == 0) by (nonlinear_arith)
            requires
                ms.len() == 0,
        ;
    } else {
        let first = ms.first();
        let rest = ms.drop_first();
        let s = before + ser_all::<T>(ms) + after;
        assert(T::storable(ms[0]));
        T::lemma_round_trip(first, before, ser_all::<T>(rest) + after);
        assert(before + T::ser(first) + (ser_all::<T>(rest) + after) =~= s);
        assert forall|i: int| 0 <= i < rest.len() implies T::storable(#[trigger] rest[i]) by {
            assert(rest[i] == ms[i + 1]);
        }
        lemma_all_round_trip::<T>(rest, before + T::ser(first), after);
        assert(before + T::ser(first) + ser_all::<T>(rest) + after =~= s);
        assert(seq![first] + rest =~= ms);
        assert(ms.len() * T::least_len() == rest.len() * T::least_len() + T::least_len())
            by (nonlinear_arith)
            requires
                ms.len() == rest.len() + 1,
        ;
    }
}

/// The models of the values of a list.
pub open spec fn models<T: Wire>(v: Seq<T>) -> Seq<T::Model> {
    v.map_values(|x: T| x.model())
}

/// Appends the layout of the list `items` to `out`: the number of values
/// in 8 bytes, then the values.
pub fn write_all<T: Wire>(items: &[T], out: &mut Vec<u8>)
    ensures
        final(out)@ == old(out)@ + <Vec<T>>::ser(models::<T>(items@)),
{
    let n: u64 = items.len() as u64;
    n.write(out);
    let ghost ms = models::<T>(items@);
    let mut i: usize = 0;
    assert(ms.take(0) =~= Seq::<T::Model>::empty());
    while i < items.len()
        invariant
            i <= items.len(),
            ms == models::<T>(items@),
            out@ == old(out)@ + spec_u64_to_le_bytes(n) + ser_all::<T>(ms.take(i as int)),
        decreases items.len() - i,
    {
        items[i].write(out);
        proof {
            lemma_ser_all_push::<T>(ms.take(i as int), ms[i as int]);
            assert(ms.take(i + 1) =~= ms.take(i as int).push(ms[i as int]));
            assert(old(out)@ + spec_u64_to_le_bytes(n) + ser_all::<T>(ms.take(i as int))
                + T::ser(ms[i as int]) =~= old(out)@ + spec_u64_to_le_bytes(n) + (ser_all::<T>(
                ms.take(i as int),
            ) + T::ser(ms[i as int])));
        }
        i += 1;
    }
    proof {
        assert(ms.take(items.len() as int) =~= ms);
        assert(old(out)@ + spec_u64_to_le_bytes(n) + ser_all::<T>(ms) =~= old(out)@ + (
        spec_u64_to_le_bytes(n) + ser_all::<T>(ms)));
    }
}

/// The models of numbers are the numbers.
pub proof fn lemma_models_of_numbers(v: Seq<u64>)
    ensures
        models::<u64>(v) == v,
{
    assert(models::<u64>(v) =~= v);
}

impl<T: Wire> Wire for Vec<T> {
    type Model = Seq<T::Model>;

    open spec fn model(&self) -> Seq<T::Model> {
        models::<T>(self@)
    }

    open spec fn storable(ms: Seq<T::Model>) -> bool {
        ms.len() <= u64::MAX && forall|i: int| 0 <= i < ms.len() ==> T::storable(#[trigger] ms[i])
    }

    /// The number of values in 8 bytes, then the values.
    open spec fn ser(ms: Seq<T::Model>) -> Seq<u8> {
        spec_u64_to_le_bytes(ms.len() as u64) + ser_all::<T>(ms)
    }

    /// A list is read only where the bytes that are left can hold as many
    /// values as it claims to have, at the least length each.
    open spec fn parse(s: Seq<u8>, pos: int) -> Result<(Seq<T::Model>, int), DkError> {
        match u64::parse(s, pos) {
            Err(e) => Err(e),
            Ok(n) => if n.0 > (s.len() - n.1) / (T::least_len() as int) {
                Err(DkError::InvalidFormat)
            } else {
                parse_all::<T>(s, n.1, n.0 as nat)
            },
        }
    }

    open spec fn least_len() -> nat {
        8
    }

    proof fn lemma_parse(s: Seq<u8>, pos: int) {
        if let Ok(n) = u64::parse(s, pos) {
            lemma_parse_all::<T>(s, n.1, n.0 as nat);
        }
    }

    proof fn lemma_round_trip(ms: Seq<T::Model>, before: Seq<u8>, after: Seq<u8>) {
        let n = ms.len() as u64;
        let s = before + Self::ser(ms) + after;
        lemma_auto_spec_u64_to_from_le_bytes();
        u64::lemma_round_trip(n, before, ser_all::<T>(ms) + after);
        assert(before + u64::ser(n) + (ser_all::<T>(ms) + after) =~= s);
        lemma_all_round_trip::<T>(ms, before + u64::ser(n), after);
        assert(before + u64::ser(n) + ser_all::<T>(ms) + after =~= s);
        T::lemma_parse(s, 0);
        let least = T::least_len() as int;
        let left = s.len() - (before.len() + 8);
        assert(left >= ms.len() * least);
        if ms.len() > left / least {
            vstd::arithmetic::div_mod::lemma_fundamental_div_mod(left, least);
            vstd::arithmetic::div_mod::lemma_mod_bound(left, least);
            assert(least * (left / least + 1) <= least * ms.len()) by (nonlinear_arith)
                requires
                    left / least + 1 <= ms.len(),
                    least >= 1,
            ;
            assert(least * ms.len() == ms.len() * least) by (nonlinear_arith);
            assert(least * (left / least + 1) == least * (left / least) + least)
                by (nonlinear_arith);
        }
    }

    fn least() -> (n: usize) {
        8
    }

    fn write(&self, out: &mut Vec<u8>) {
        write_all(self.as_slice(), out);
    }

    fn read(bytes: &[u8], pos: usize) -> (r: Result<(Vec<T>, usize), DkError>) {
        let (n, start) = match u64::read(bytes, pos) {
            Ok(x) => x,
            Err(e) => {
                return Err(e);
            },
        };
        if n > ((bytes.len() - start) / T::least()) as u64 {
            return Err(DkError::InvalidFormat);
        }
        let mut v: Vec<T> = Vec::new();
        let mut i: u64 = 0;
        let mut at: usize = start;
        assert(models::<T>(v@) =~= Seq::<T::Model>::empty());
        assert(read_on(models::<T>(v@), parse_all::<T>(bytes@, at as int, n as nat))
            =~= parse_all::<T>(bytes@, start as int, n as nat)) by {
            if let Ok(rest) = parse_all::<T>(bytes@, at as int, n as nat) {
                assert(models::<T>(v@) + rest.0 =~= rest.0);
            }
        }
        while i < n
            invariant
                i <= n,
                start <= at <= bytes@.len(),
                Self::parse(bytes@, pos as int) == parse_all::<T>(bytes@, start as int, n as nat),
                parse_all::<T>(bytes@, start as int, n as nat) == read_on(
                    models::<T>(v@),
                    parse_all::<T>(bytes@, at as int, (n - i) as nat),
                ),
            decreases n - i,
        {
            proof {
                lemma_parse_all_step::<T>(bytes@, at as int, (n - i) as nat);
                T::lemma_parse(bytes@, at as int);
            }
            match T::read(bytes, at) {
                Ok((x, next)) => {
                    let ghost done = models::<T>(v@);
                    v.push(x);
                    proof {
                        assert(models::<T>(v@) =~= done.push(x.model()));
                        if let Ok(rest) = parse_all::<T>(bytes@, next as int, (n - i - 1) as nat) {
                            assert(done + (seq![x.model()] + rest.0) =~= done.push(x.model())
                                + rest.0);
                        }
                    }
                    at = next;
                },
                Err(e) => {
                    return Err(e);
                },
            }
            i += 1;
        }
        proof {
            assert(models::<T>(v@) + Seq::<T::Model>::empty() =~= models::<T>(v@));
        }
        Ok((v, at))
    }
}

/// Two values, one behind the other.
impl<A: Wire, B: Wire> Wire for (A, B) {
    type Model = (A::Model, B::Model);

    open spec fn model(&self) -> (A::Model, B::Model) {
        (self.0.model(), self.1.model())
    }

    open spec fn storable(m: (A::Model, B::Model)) -> bool {
        A::storable(m.0) && B::storable(m.1)
    }

    open spec fn ser(m: (A::Model, B::Model)) -> Seq<u8> {
        A::ser(m.0) + B::ser(m.1)
    }

    open spec fn parse(s: Seq<u8>, pos: int) -> Result<((A::Model, B::Model), int), DkError> {
        match A::parse(s, pos) {
            Err(e) => Err(e),
            Ok(a) => match B::parse(s, a.1) {
                Err(e) => Err(e),
                Ok(b) => Ok(((a.0, b.0), b.1)),
            },
        }
    }

    open spec fn least_len() -> nat {
        A::least_len()
    }

    proof fn lemma_parse(s: Seq<u8>, pos: int) {
        A::lemma_parse(s, pos);
        if let Ok(a) = A::parse(s, pos) {
            B::lemma_parse(s, a.1);
        }
    }

    proof fn lemma_round_trip(m: (A::Model, B::Model), before: Seq<u8>, after: Seq<u8>) {
        let s = before + Self::ser(m) + after;
        A::lemma_round_trip(m.0, before, B::ser(m.1) + after);
        assert(before + A::ser(m.0) + (B::ser(m.1) + after) =~= s);
        B::lemma_round_trip(m.1, before + A::ser(m.0), after);
        assert(before + A::ser(m.0) + B::ser(m.1) + after =~= s);
    }

    fn least() -> (n: usize) {
        A::least()
    }

    fn write(&self, out: &mut Vec<u8>) {
        self.0.write(out);
        self.1.write(out);
        assert(old(out)@ + A::ser(self.0.model()) + B::ser(self.1.model()) =~= old(out)@ + (
        A::ser(self.0.model()) + B::ser(self.1.model())));
    }

    fn read(bytes: &[u8], pos: usize) -> (r: Result<((A, B), usize), DkError>) {
        proof {
            A::lemma_parse(bytes@, pos as int);
        }
        match A::read(bytes, pos) {
            Err(e) => Err(e),
            Ok((a, mid)) => match B::read(bytes, mid) {
                Err(e) => Err(e),
                Ok((b, next)) => Ok(((a, b), next)),
            },
        }
    }
}

/// Three values, one behind the other.
impl<A: Wire, B: Wire, C: Wire> Wire for (A, B, C) {
    type Model = (A::Model, B::Model, C::Model);

    open spec fn model(&self) -> (A::Model, B::Model, C::Model) {
        (self.0.model(), self.1.model(), self.2.model())
    }

    open spec fn storable(m: (A::Model, B::Model, C::Model)) -> bool {
        <(A, (B, C))>::storable((m.0, (m.1, m.2)))
    }

    open spec fn ser(m: (A::Model, B::Model, C::Model)) -> Seq<u8> {
        <(A, (B, C))>::ser((m.0, (m.1, m.2)))
    }

    open spec fn parse(s: Seq<u8>, pos: int) -> Result<
        ((A::Model, B::Model, C::Model), int),
        DkError,
    > {
        match <(A, (B, C))>::parse(s, pos) {
            Err(e) => Err(e),
            Ok(r) => Ok(((r.0.0, r.0.1.0, r.0.1.1), r.1)),
        }
    }

    open spec fn least_len() -> nat {
        A::least_len()
    }

    proof fn lemma_parse(s: Seq<u8>, pos: int) {
        <(A, (B, C))>::lemma_parse(s, pos);
    }

    proof fn lemma_round_trip(
        m: (A::Model, B::Model, C::Model),
        before: Seq<u8>,
        after: Seq<u8>,
    ) {
        <(A, (B, C))>::lemma_round_trip((m.0, (m.1, m.2)), before, after);
    }

    fn least() -> (n: usize) {
        A::least()
    }

    fn write(&self, out: &mut Vec<u8>) {
        self.0.write(out);
        self.1.write(out);
        self.2.write(out);
        assert(old(out)@ + A::ser(self.0.model()) + B::ser(self.1.model()) + C::ser(
            self.2.model(),
        ) =~= old(out)@ + (A::ser(self.0.model()) + (B::ser(self.1.model()) + C::ser(
            self.2.model(),
        ))));
    }

    fn read(bytes: &[u8], pos: usize) -> (r: Result<((A, B, C), usize), DkError>) {
        proof {
            <(A, (B, C))>::lemma_parse(bytes@, pos as int);
            A::lemma_parse(bytes@, pos as int);
        }
        match A::read(bytes, pos) {
            Err(e) => Err(e),
            Ok((a, at_b)) => {
                proof {
                    B::lemma_parse(bytes@, at_b as int);
                }
                match B::read(bytes, at_b) {
                    Err(e) => Err(e),
                    Ok((b, at_c)) => match C::read(bytes, at_c) {
                        Err(e) => Err(e),
                        Ok((c, next)) => Ok(((a, b, c), next)),
                    },
                }
            },
        }
    }
}

/// Four values, one behind the other.
impl<A: Wire, B: Wire, C: Wire, D: Wire> Wire for (A, B, C, D) {
    type Model = (A::Model, B::Model, C::Model, D::Model);

    open spec fn model(&self) -> (A::Model, B::Model, C::Model, D::Model) {
        (self.0.model(), self.1.model(), self.2.model(), self.3.model())
    }

    open spec fn storable(m: (A::Model, B::Model, C::Model, D::Model)) -> bool {
        <(A, (B, (C, D)))>::storable((m.0, (m.1, (m.2, m.3))))
    }

    open spec fn ser(m: (A::Model, B::Model, C::Model, D::Model)) -> Seq<u8> {
        <(A, (B, (C, D)))>::ser((m.0, (m.1, (m.2, m.3))))
    }

    open spec fn parse(s: Seq<u8>, pos: int) -> Result<
        ((A::Model, B::Model, C::Model, D::Model), int),
        DkError,
    > {
        match <(A, (B, (C, D)))>::parse(s, pos) {
            Err(e) => Err(e),
            Ok(r) => Ok(((r.0.0, r.0.1.0, r.0.1.1.0, r.0.1.1.1), r.1)),
        }
    }

    open spec fn least_len() -> nat {
        A::least_len()
    }

    proof fn lemma_parse(s: Seq<u8>, pos: int) {
        <(A, (B, (C, D)))>::lemma_parse(s, pos);
    }

    proof fn lemma_round_trip(
        m: (A::Model, B::Model, C::Model, D::Model),
        before: Seq<u8>,
        after: Seq<u8>,
    ) {
        <(A, (B, (C, D)))>::lemma_round_trip((m.0, (m.1, (m.2, m.3))), before, after);
    }

    fn least() -> (n: usize) {
        A::least()
    }

    fn write(&self, out: &mut Vec<u8>) {
        self.0.write(out);
        self.1.write(out);
        self.2.write(out);
        self.3.write(out);
        assert(old(out)@ + A::ser(self.0.model()) + B::ser(self.1.model()) + C::ser(
            self.2.model(),
        ) + D::ser(self.3.model()) =~= old(out)@ + (A::ser(self.0.model()) + (B::ser(
            self.1.model(),
        ) + (C::ser(self.2.model()) + D::ser(self.3.model())))));
    }

    fn read(bytes: &[u8], pos: usize) -> (r: Result<((A, B, C, D), usize), DkError>) {
        proof {
            <(A, (B, (C, D)))>::lemma_parse(bytes@, pos as int);
            A::lemma_parse(bytes@, pos as int);
        }
        match A::read(bytes, pos) {
            Err(e) => Err(e),
            Ok((a, at_b)) => {
                proof {
                    B::lemma_parse(bytes@, at_b as int);
                }
                match B::read(bytes, at_b) {
                    Err(e) => Err(e),
                    Ok((b, at_c)) => {
                        proof {
                            C::lemma_parse(bytes@, at_c as int);
                        }
                        match C::read(bytes, at_c) {
                            Err(e) => Err(e),
                            Ok((c, at_d)) => match D::read(bytes, at_d) {
                                Err(e) => Err(e),
                                Ok((d, next)) => Ok(((a, b, c, d), next)),
                            },
                        }
                    },
                }
            },
        }
    }
}

} // verus!
