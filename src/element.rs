//! Unsigned integers read from a run of bytes in either byte order.
use vstd::prelude::*;

verus! {

/// The value of `b` read most significant byte first.
pub open spec fn be_value(b: Seq<u8>) -> nat
    decreases b.len(),
{
    if b.len() == 0 {
        0
    } else {
        be_value(b.drop_last()) * 256 + b.last() as nat
    }
}

/// The value of `b` read least significant byte first.
pub open spec fn le_value(b: Seq<u8>) -> nat {
    be_value(b.reverse())
}

/// The value of one stored element, in the byte order the file declares.
pub open spec fn element_value(b: Seq<u8>, big: bool) -> nat {
    if big { be_value(b) } else { le_value(b) }
}

pub open spec fn pow256(n: nat) -> nat
    decreases n,
{
    if n == 0 { 1 } else { 256 * pow256((n - 1) as nat) }
}

/// Reading bytes in big-endian order gives what reading their reversal in
/// little-endian order gives: the byte order flag and a reversed payload cancel.
pub proof fn lemma_byte_order_mirror(b: Seq<u8>)
    ensures
        element_value(b, true) == element_value(b.reverse(), false),
{
    assert(b.reverse().reverse() =~= b);
}

proof fn lemma_pow256_le8(n: nat)
    requires
        n <= 8,
    ensures
        pow256(n) <= 0x1_0000_0000_0000_0000,
    decreases n,
{
    reveal_with_fuel(pow256, 9);
}

/// Reads the `w`-byte element at `b[off..off + w]`.
pub fn read_element(b: &[u8], off: usize, w: usize, big: bool) -> (r: u64)
    requires
        1 <= w <= 8,
        off + w <= b@.len(),
    ensures
        r as nat == element_value(b@.subrange(off as int, off + w), big),
{
    let ghost s = b@.subrange(off as int, off + w);
    proof { lemma_pow256_le8(w as nat); }
    let n = b.len();
    let mut v: u64 = 0;
    let mut j: usize = 0;
    while j < w
        invariant
            j <= w <= 8,
            off + w <= b@.len(),
            n == b@.len(),
            s == b@.subrange(off as int, off + w),
            pow256(w as nat) <= 0x1_0000_0000_0000_0000,
            big ==> v as nat == be_value(s.subrange(0, j as int)),
            !big ==> v as nat == be_value(s.reverse().subrange(0, j as int)),
            v < pow256(j as nat),
        decreases w - j,
    {
        let byte: u8 = if big { b[off + j] } else { b[off + w - 1 - j] };
        proof {
            let t = if big { s } else { s.reverse() };
            assert(t[j as int] == byte);
            assert(t.subrange(0, j + 1).drop_last() =~= t.subrange(0, j as int));
            assert(pow256((j + 1) as nat) == 256 * pow256(j as nat));
            lemma_pow_mono((j + 1) as nat, w as nat);
            assert(v * 256 + byte < 256 * pow256(j as nat)) by (nonlinear_arith)
                requires v < pow256(j as nat), byte < 256;
        }
        v = v * 256 + byte as u64;
        j = j + 1;
    }
    proof {
        assert(s.subrange(0, w as int) =~= s);
        assert(s.reverse().subrange(0, w as int) =~= s.reverse());
    }
    v
}

proof fn lemma_pow_mono(i: nat, j: nat)
    requires
        i <= j,
    ensures
        pow256(i) <= pow256(j),
    decreases j - i,
{
    if i < j {
        lemma_pow_mono(i, (j - 1) as nat);
    }
}

} // verus!
