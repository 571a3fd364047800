//! Big-endian integer fields and byte-slice helpers shared by the binary
//! leaf codec and the envelope codec.

use vstd::prelude::*;

verus! {

/// The value of a big-endian byte string.
pub open spec fn be_bytes_val(s: Seq<u8>) -> nat
    decreases s.len(),
{
    if s.len() == 0 {
        0
    } else {
        be_bytes_val(s.drop_last()) * 256 + (s.last() as nat)
    }
}

/// `256^n`, the number of values an `n`-byte field can hold.
pub open spec fn pow256(n: nat) -> nat
    decreases n,
{
    if n == 0 {
        1
    } else {
        256 * pow256((n - 1) as nat)
    }
}

/// The `n`-byte big-endian encoding of `v`.
pub open spec fn be_bytes_of(v: nat, n: nat) -> Seq<u8>
    decreases n,
{
    if n == 0 {
        Seq::empty()
    } else {
        be_bytes_of(v / 256, (n - 1) as nat).push((v % 256) as u8)
    }
}

pub proof fn lemma_pow256_mono(a: nat, b: nat)
    requires
        a <= b,
    ensures
        pow256(a) <= pow256(b),
        pow256(a) >= 1,
    decreases b,
{
    if b > 0 {
        if a == b {
            lemma_pow256_mono((a - 1) as nat, (b - 1) as nat);
        } else {
            lemma_pow256_mono(a, (b - 1) as nat);
        }
    }
}

pub proof fn lemma_be_bytes_val_bound(s: Seq<u8>)
    ensures
        be_bytes_val(s) < pow256(s.len()),
    decreases s.len(),
{
    if s.len() > 0 {
        lemma_be_bytes_val_bound(s.drop_last());
        assert(be_bytes_val(s.drop_last()) * 256 + (s.last() as nat) < pow256(s.len()))
            by (nonlinear_arith)
            requires
                be_bytes_val(s.drop_last()) < pow256((s.len() - 1) as nat),
                (s.last() as nat) < 256,
                pow256(s.len()) == 256 * pow256((s.len() - 1) as nat),
        ;
    }
}

/// Encoding then reading back a value that fits `n` bytes is the identity,
/// and the encoding is exactly `n` bytes long.
pub proof fn lemma_be_roundtrip(v: nat, n: nat)
    requires
        v < pow256(n),
    ensures
        be_bytes_of(v, n).len() == n,
        be_bytes_val(be_bytes_of(v, n)) == v,
    decreases n,
{
    if n > 0 {
        assert(v / 256 < pow256((n - 1) as nat)) by (nonlinear_arith)
            requires
                v < 256 * pow256((n - 1) as nat),
        ;
        lemma_be_roundtrip(v / 256, (n - 1) as nat);
        let enc = be_bytes_of(v, n);
        assert(enc.drop_last() =~= be_bytes_of(v / 256, (n - 1) as nat));
        assert(be_bytes_val(enc) == (v / 256) * 256 + v % 256);
        assert((v / 256) * 256 + v % 256 == v) by (nonlinear_arith);
    }
}

/// Reads the `n`-byte big-endian integer at `off`.
pub fn read_be(input: &Vec<u8>, off: usize, n: usize) -> (v: u64)
    requires
        off + n <= input.len(),
        n <= 8,
    ensures
        v as nat == be_bytes_val(input@.subrange(off as int, off + n)),
{
    let mut v: u64 = 0;
    let mut i: usize = 0;
    while i < n
        invariant
            i <= n,
            n <= 8,
            off + n <= input.len(),
            v as nat == be_bytes_val(input@.subrange(off as int, off + i)),
        decreases n - i,
    {
        proof {
            lemma_be_bytes_val_bound(input@.subrange(off as int, off + i));
            lemma_pow256_mono(i as nat, 7);
            assert(pow256(7) == 0x100000000000000) by {
                reveal_with_fuel(pow256, 8);
            }
        }
        v = v * 256 + (input[off + i] as u64);
        proof {
            let pre = input@.subrange(off as int, off + i);
            let post = input@.subrange(off as int, off + i + 1);
            assert(post.drop_last() =~= pre);
        }
        i = i + 1;
    }
    v
}

/// Copies `input[start..end]` into a fresh vector.
pub fn copy_range(input: &Vec<u8>, start: usize, end: usize) -> (r: Vec<u8>)
    requires
        start <= end,
        end <= input@.len(),
    ensures
        r@ == input@.subrange(start as int, end as int),
{
    let mut r: Vec<u8> = Vec::new();
    let mut i: usize = start;
    while i < end
        invariant
            start <= i <= end <= input@.len(),
            r@ == input@.subrange(start as int, i as int),
        decreases end - i,
    {
        r.push(input[i]);
        proof {
            assert(input@.subrange(start as int, i + 1)
                =~= input@.subrange(start as int, i as int).push(input@[i as int]));
        }
        i = i + 1;
    }
    proof {
        assert(r@ =~= input@.subrange(start as int, end as int));
    }
    r
}

/// Appends all of `src` to `out`.
pub fn append_bytes(out: &mut Vec<u8>, src: &Vec<u8>)
    ensures
        final(out)@ == old(out)@ + src@,
{
    let mut i: usize = 0;
    while i < src.len()
        invariant
            i <= src@.len(),
            out@ == old(out)@ + src@.subrange(0, i as int),
        decreases src@.len() - i,
    {
        out.push(src[i]);
        proof {
            assert(src@.subrange(0, i + 1) =~= src@.subrange(0, i as int).push(src@[i as int]));
            assert(old(out)@ + src@.subrange(0, i + 1)
                =~= (old(out)@ + src@.subrange(0, i as int)).push(src@[i as int]));
        }
        i = i + 1;
    }
    proof {
        assert(src@.subrange(0, src@.len() as int) =~= src@);
    }
}

/// Writes the `n`-byte big-endian encoding of `v` onto the end of `out`.
pub fn encode_be(out: &mut Vec<u8>, v: u64, n: usize)
    requires
        n <= 8,
        (v as nat) < pow256(n as nat),
    ensures
        final(out)@ == old(out)@ + be_bytes_of(v as nat, n as nat),
    decreases n,
{
    if n > 0 {
        proof {
            assert((v as nat) / 256 < pow256((n - 1) as nat)) by (nonlinear_arith)
                requires
                    (v as nat) < 256 * pow256((n - 1) as nat),
            ;
        }
        encode_be(out, v / 256, n - 1);
        out.push((v % 256) as u8);
        proof {
            assert(out@ =~= old(out)@ + be_bytes_of(v as nat, n as nat));
        }
    } else {
        proof {
            assert(out@ =~= old(out)@ + be_bytes_of(v as nat, 0));
        }
    }
}

} // verus!
