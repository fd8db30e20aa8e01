//! Alignment padding relative to the start of a message.

use vstd::prelude::*;

verus! {

/// Number of zero bytes that must precede a value of alignment `align` when
/// `offset` bytes of the message have been written so far.
pub open spec fn padding(offset: int, align: int) -> int {
    (align - offset % align) % align
}

/// Whether `offset` is a multiple of `align`.
pub open spec fn is_aligned(offset: int, align: int) -> bool {
    offset % align == 0
}

/// A run of `n` zero bytes.
pub open spec fn zeros(n: int) -> Seq<u8> {
    Seq::new(n as nat, |i: int| 0u8)
}

/// The padding is the least non-negative amount that reaches the next
/// multiple of `align`.
pub proof fn lemma_padding_aligns(offset: int, align: int)
    requires
        0 <= offset,
        0 < align,
    ensures
        0 <= padding(offset, align) < align,
        is_aligned(offset + padding(offset, align), align),
        is_aligned(offset, align) ==> padding(offset, align) == 0,
        forall|p: int| 0 <= p < padding(offset, align) ==> !#[trigger] is_aligned(offset + p, align),
{
    let r = offset % align;
    let q = offset / align;
    assert(offset == align * q + r) by (nonlinear_arith)
        requires
            r == offset % align,
            q == offset / align,
            0 < align,
    ;
    if r == 0 {
        assert(padding(offset, align) == 0) by (nonlinear_arith)
            requires
                0 < align,
                padding(offset, align) == align % align,
        ;
    } else {
        assert((align - r) % align == align - r) by (nonlinear_arith)
            requires
                0 < r < align,
        ;
        assert((offset + (align - r)) % align == 0) by (nonlinear_arith)
            requires
                offset == align * q + r,
                0 < align,
        ;
        assert forall|p: int| 0 <= p < align - r implies !#[trigger] is_aligned(offset + p, align) by {
            assert((offset + p) % align == r + p) by (nonlinear_arith)
                requires
                    offset == align * q + r,
                    0 <= r + p < align,
            ;
        }
    }
}

/// Computes the padding that aligns `value` to `align`.
pub fn padding_for_n_bytes(value: usize, align: usize) -> (pad: usize)
    requires
        align > 0,
    ensures
        pad as int == padding(value as int, align as int),
        pad < align,
        is_aligned(value + pad, align as int),
{
    proof {
        lemma_padding_aligns(value as int, align as int);
    }
    let rem: usize = value % align;
    if rem == 0 {
        0
    } else {
        assert((align - rem) % (align as int) == align - rem) by (nonlinear_arith)
            requires
                0 < rem < align,
        ;
        align - rem
    }
}

/// Appends `n` zero bytes to `out`.
pub fn push_zeros(out: &mut Vec<u8>, n: usize)
    ensures
        final(out)@ == old(out)@ + zeros(n as int),
{
    let mut i: usize = 0;
    while i < n
        invariant
            i <= n,
            out@ == old(out)@ + zeros(i as int),
        decreases n - i,
    {
        out.push(0u8);
        i = i + 1;
        assert(out@ =~= old(out)@ + zeros(i as int));
    }
}

} // verus!
