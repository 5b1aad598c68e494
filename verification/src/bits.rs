use crate::shape::{lemma_sum_to_grows, sum_to};
use vstd::arithmetic::div_mod::lemma_div_denominator;
use vstd::arithmetic::power2::{
    lemma2_to64, lemma_pow2_adds, lemma_pow2_pos, lemma_pow2_strictly_increases,
    lemma_pow2_unfold, pow2,
};
use vstd::prelude::*;

verus! {

/// The low `width` bits of `value`, the least significant first.
pub open spec fn le_bits(value: nat, width: nat) -> Seq<bool>
    decreases width,
{
    if width == 0 {
        Seq::empty()
    } else {
        seq![value % 2 == 1] + le_bits(value / 2, (width - 1) as nat)
    }
}

/// `n` bits that are all clear.
pub open spec fn zeros(n: int) -> Seq<bool> {
    Seq::new(
        if n >= 0 {
            n as nat
        } else {
            0
        },
        |i: int| false,
    )
}

/// The first `n` of `pieces`, one after the other.
pub open spec fn concat_to<A>(pieces: Seq<Seq<A>>, n: int) -> Seq<A>
    decreases n,
{
    if n <= 0 || n > pieces.len() {
        Seq::empty()
    } else {
        concat_to(pieces, n - 1) + pieces[n - 1]
    }
}

/// The length of each of `pieces`.
pub open spec fn lengths<A>(pieces: Seq<Seq<A>>) -> Seq<nat> {
    Seq::new(pieces.len(), |i: int| pieces[i].len())
}

/// `le_bits` yields as many bits as it is asked for.
pub proof fn lemma_le_bits_len(value: nat, width: nat)
    ensures
        le_bits(value, width).len() == width,
    decreases width,
{
    if width > 0 {
        lemma_le_bits_len(value / 2, (width - 1) as nat);
    }
}

/// Bit `i` of `le_bits` is the binary digit of weight 2 to the `i`.
pub proof fn lemma_le_bits_index(value: nat, width: nat, i: int)
    requires
        0 <= i < width,
    ensures
        le_bits(value, width).len() == width,
        le_bits(value, width)[i] == ((value / pow2(i as nat)) % 2 == 1),
    decreases width,
{
    lemma_le_bits_len(value, width);
    lemma_le_bits_len(value / 2, (width - 1) as nat);
    if i == 0 {
        lemma2_to64();
    } else {
        lemma_le_bits_index(value / 2, (width - 1) as nat, i - 1);
        lemma_pow2_unfold(i as nat);
        lemma_pow2_pos((i - 1) as nat);
        lemma_div_denominator(value as int, 2, pow2((i - 1) as nat) as int);
    }
}

/// Pieces laid one after the other are as long as their lengths added up, and
/// each piece is found again at the offset of the pieces before it.
pub proof fn lemma_concat_to<A>(pieces: Seq<Seq<A>>, i: int, n: int)
    requires
        0 <= i < n <= pieces.len(),
    ensures
        concat_to(pieces, n).len() == sum_to(lengths(pieces), n),
        concat_to(pieces, i).len() == sum_to(lengths(pieces), i),
        concat_to(pieces, n).subrange(
            sum_to(lengths(pieces), i) as int,
            (sum_to(lengths(pieces), i) + pieces[i].len()) as int,
        ) == pieces[i],
    decreases n,
{
    lemma_concat_len(pieces, n);
    lemma_concat_len(pieces, i);
    lemma_concat_len(pieces, n - 1);
    let at = sum_to(lengths(pieces), i) as int;
    if i == n - 1 {
        assert(concat_to(pieces, n).subrange(at, at + pieces[i].len()) =~= pieces[i]);
    } else {
        lemma_concat_to(pieces, i, n - 1);
        lemma_sum_to_grows(lengths(pieces), i + 1, n - 1);
        assert(concat_to(pieces, n).subrange(at, at + pieces[i].len()) =~= concat_to(
            pieces,
            n - 1,
        ).subrange(at, at + pieces[i].len()));
    }
}

/// Pieces laid one after the other are as long as their lengths added up.
pub proof fn lemma_concat_len<A>(pieces: Seq<Seq<A>>, n: int)
    requires
        0 <= n <= pieces.len(),
    ensures
        concat_to(pieces, n).len() == sum_to(lengths(pieces), n),
    decreases n,
{
    if n > 0 {
        lemma_concat_len(pieces, n - 1);
    }
}

/// Appends the low `width` bits of `value` to `out`, the least significant first.
pub fn push_bits(out: &mut Vec<bool>, value: u128, width: usize)
    ensures
        final(out)@ == old(out)@ + le_bits(value as nat, width as nat),
{
    let ghost goal = out@ + le_bits(value as nat, width as nat);
    let mut v: u128 = value;
    let mut i: usize = 0;
    while i < width
        invariant
            i <= width,
            out@ + le_bits(v as nat, (width - i) as nat) == goal,
        decreases width - i,
    {
        let ghost before = out@;
        let ghost rest = le_bits((v / 2) as nat, (width - i - 1) as nat);
        let bit: bool = v % 2 == 1;
        out.push(bit);
        assert(before.push(bit) + rest =~= before + (seq![bit] + rest));
        v = v / 2;
        i += 1;
    }
    assert(out@ + le_bits(v as nat, 0) =~= out@);
}

/// Appends `n` clear bits to `out`.
pub fn push_zeros(out: &mut Vec<bool>, n: usize)
    ensures
        final(out)@ == old(out)@ + zeros(n as int),
{
    let ghost before = out@;
    let mut i: usize = 0;
    while i < n
        invariant
            i <= n,
            out@ == before + zeros(i as int),
        decreases n - i,
    {
        out.push(false);
        i += 1;
        assert(out@ =~= before + zeros(i as int));
    }
}

/// Appends a copy of `bits` to `out`.
pub fn push_all(out: &mut Vec<bool>, bits: &Vec<bool>)
    ensures
        final(out)@ == old(out)@ + bits@,
{
    let ghost before = out@;
    let mut i: usize = 0;
    while i < bits.len()
        invariant
            i <= bits@.len(),
            out@ == before + bits@.take(i as int),
        decreases bits@.len() - i,
    {
        out.push(bits[i]);
        i += 1;
        assert(out@ =~= before + bits@.take(i as int));
    }
    assert(bits@.take(bits@.len() as int) =~= bits@);
}

/// The low `width` bits of `value`, the least significant first.
pub fn to_bools(value: u128, width: usize) -> (r: Vec<bool>)
    ensures
        r@ == le_bits(value as nat, width as nat),
        r@.len() == width,
{
    let mut out: Vec<bool> = Vec::new();
    push_bits(&mut out, value, width);
    proof {
        lemma_le_bits_len(value as nat, width as nat);
        assert(Seq::<bool>::empty() + le_bits(value as nat, width as nat) =~= le_bits(
            value as nat,
            width as nat,
        ));
    }
    out
}

/// The number that `bits` write in binary, the least significant bit first.
pub open spec fn value_of(bits: Seq<bool>) -> nat
    decreases bits.len(),
{
    if bits.len() == 0 {
        0
    } else if bits[0] {
        1 + 2 * value_of(bits.drop_first())
    } else {
        2 * value_of(bits.drop_first())
    }
}

/// A number written in `n` bits is below 2 to the `n`.
pub proof fn lemma_value_of_bound(bits: Seq<bool>)
    ensures
        value_of(bits) < pow2(bits.len()),
    decreases bits.len(),
{
    if bits.len() == 0 {
        lemma2_to64();
    } else {
        lemma_value_of_bound(bits.drop_first());
        lemma_pow2_unfold(bits.len());
    }
}

/// Writing a number out and reading it back: the low bits of the number that
/// `bits` write are `bits` again.
pub proof fn lemma_le_bits_of_value(bits: Seq<bool>)
    ensures
        le_bits(value_of(bits), bits.len()) == bits,
    decreases bits.len(),
{
    if bits.len() > 0 {
        let rest = bits.drop_first();
        lemma_le_bits_of_value(rest);
        assert(value_of(bits) / 2 == value_of(rest));
        assert((value_of(bits) % 2 == 1) == bits[0]);
        assert(seq![bits[0]] + rest =~= bits);
    } else {
        assert(le_bits(value_of(bits), 0) =~= bits);
    }
}

/// Reading a number back from its bits: a number that `width` bits can
/// write is the number that its low `width` bits write.
pub proof fn lemma_value_of_le_bits(value: nat, width: nat)
    requires
        value < pow2(width),
    ensures
        value_of(le_bits(value, width)) == value,
    decreases width,
{
    if width == 0 {
        lemma2_to64();
    } else {
        let rest = le_bits(value / 2, (width - 1) as nat);
        lemma_pow2_unfold(width);
        lemma_value_of_le_bits(value / 2, (width - 1) as nat);
        assert(le_bits(value, width).drop_first() =~= rest);
    }
}

/// Two different numbers that `width` bits can write differ in their low
/// `width` bits.
pub proof fn lemma_le_bits_differ(a: nat, b: nat, width: nat)
    requires
        a != b,
        a < pow2(width),
        b < pow2(width),
    ensures
        le_bits(a, width) != le_bits(b, width),
{
    lemma_value_of_le_bits(a, width);
    lemma_value_of_le_bits(b, width);
}

/// The number that the bits of a scalar write in binary, the least
/// significant bit first.
pub fn from_bools(bits: &Vec<bool>) -> (r: u128)
    requires
        bits@.len() <= 128,
    ensures
        r == value_of(bits@),
{
    let mut r: u128 = 0;
    let mut i: usize = bits.len();
    assert(bits@.skip(i as int) =~= Seq::<bool>::empty());
    while i > 0
        invariant
            i <= bits@.len() <= 128,
            r == value_of(bits@.skip(i as int)),
        decreases i,
    {
        proof {
            let tail = bits@.skip(i as int);
            let longer = bits@.skip(i - 1);
            assert(longer.drop_first() =~= tail);
            assert(longer[0] == bits@[i - 1]);
            lemma_value_of_bound(longer);
            lemma_pow2_adds(64, 64);
            lemma2_to64();
            if longer.len() < 128 {
                lemma_pow2_strictly_increases(longer.len(), 128);
            }
            assert(pow2(128) == 0x1_0000_0000_0000_0000_0000_0000_0000_0000) by {
                assert(0x1_0000_0000_0000_0000int * 0x1_0000_0000_0000_0000int
                    == 0x1_0000_0000_0000_0000_0000_0000_0000_0000int) by (nonlinear_arith);
            }
        }
        i -= 1;
        if bits[i] {
            r = 2 * r + 1;
        } else {
            r = 2 * r;
        }
    }
    assert(bits@.skip(0) =~= bits@);
    r
}

} // verus!
