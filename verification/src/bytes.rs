//! Little-endian bytes, as the kernel reads its structures on x86-64.

use vstd::prelude::*;

verus! {

/// The `width` lowest bytes of `n`, the lowest first.
pub open spec fn le(n: nat, width: nat) -> Seq<u8>
    decreases width,
{
    if width == 0 {
        Seq::empty()
    } else {
        seq![(n % 256) as u8] + le(n / 256, (width - 1) as nat)
    }
}

/// The number whose bytes, the lowest first, are `b`.
pub open spec fn from_le(b: Seq<u8>) -> nat
    decreases b.len(),
{
    if b.len() == 0 {
        0
    } else {
        b[0] as nat + 256 * from_le(b.drop_first())
    }
}

/// How many numbers `width` bytes can tell apart.
pub open spec fn numbers(width: nat) -> nat
    decreases width,
{
    if width == 0 {
        1
    } else {
        256 * numbers((width - 1) as nat)
    }
}

/// `width` bytes give back the number that they were written for, where it
/// fits.
pub proof fn law_bytes_read_back(n: nat, width: nat)
    requires
        n < numbers(width),
    ensures
        le(n, width).len() == width,
        from_le(le(n, width)) == n,
    decreases width,
{
    if width > 0 {
        law_bytes_read_back(n / 256, (width - 1) as nat);
        assert(le(n, width).drop_first() =~= le(n / 256, (width - 1) as nat));
    }
}

/// Appends the `width` lowest bytes of `n`.
pub fn push_le(out: &mut Vec<u8>, n: u64, width: usize)
    ensures
        final(out)@ == old(out)@ + le(n as nat, width as nat),
{
    let mut rest: u64 = n;
    let mut i: usize = 0;
    assert(out@ + le(n as nat, width as nat) =~= old(out)@ + le(n as nat, width as nat));
    while i < width
        invariant
            i <= width,
            out@ + le(rest as nat, (width - i) as nat) == old(out)@ + le(n as nat, width as nat),
        decreases width - i,
    {
        let ghost before = out@;
        out.push((rest % 256) as u8);
        assert(before + le(rest as nat, (width - i) as nat) =~= out@ + le(
            rest as nat / 256,
            (width - i - 1) as nat,
        ));
        rest = rest / 256;
        i = i + 1;
    }
    assert(out@ + le(rest as nat, 0) =~= out@);
}

/// The lowest byte comes first: byte `i` is what `n` has in the place of 256 to
/// the `i`.
pub proof fn law_lowest_byte_first(n: nat, width: nat, i: nat)
    requires
        i < width,
    ensures
        le(n, width).len() == width,
        numbers(i) > 0,
        le(n, width)[i as int] == n / numbers(i) % 256,
    decreases width,
{
    lemma_le_len(n, width);
    if i == 0 {
        assert(n / 1 == n);
    } else {
        law_lowest_byte_first(n / 256, (width - 1) as nat, (i - 1) as nat);
        assert(le(n, width)[i as int] == le(n / 256, (width - 1) as nat)[i - 1]);
        let m = numbers((i - 1) as nat);
        vstd::arithmetic::div_mod::lemma_div_denominator(n as int, 256, m as int);
        assert(numbers(i) == 256 * m);
    }
}

proof fn lemma_le_len(n: nat, width: nat)
    ensures
        le(n, width).len() == width,
    decreases width,
{
    if width > 0 {
        lemma_le_len(n / 256, (width - 1) as nat);
    }
}

} // verus!
