//! Unsigned integers in byte sequences, in either byte order.

use vstd::prelude::*;

verus! {

/// The number whose base-256 digits are `s`, most significant first.
pub open spec fn be_value(s: Seq<u8>) -> nat
    decreases s.len(),
{
    if s.len() == 0 {
        0
    } else {
        be_value(s.drop_last()) * 256 + s.last() as nat
    }
}

/// The number whose base-256 digits are `s`, least significant first.
pub open spec fn le_value(s: Seq<u8>) -> nat
    decreases s.len(),
{
    if s.len() == 0 {
        0
    } else {
        le_value(s.drop_first()) * 256 + s.first() as nat
    }
}

/// The number written in `s` in the given byte order.
pub open spec fn uint_value(s: Seq<u8>, little: bool) -> nat {
    if little {
        le_value(s)
    } else {
        be_value(s)
    }
}

/// `256` to the power `n`.
pub open spec fn pow256(n: nat) -> nat
    decreases n,
{
    if n == 0 {
        1
    } else {
        256 * pow256((n - 1) as nat)
    }
}

/// The four bytes of `w`, least significant first.
pub open spec fn le_bytes4(w: u32) -> Seq<u8> {
    seq![
        (w % 256) as u8,
        (w / 256 % 256) as u8,
        (w / 65536 % 256) as u8,
        (w / 16777216) as u8,
    ]
}

/// The four bytes of `w`, most significant first.
pub open spec fn be_bytes4(w: u32) -> Seq<u8> {
    seq![
        (w / 16777216) as u8,
        (w / 65536 % 256) as u8,
        (w / 256 % 256) as u8,
        (w % 256) as u8,
    ]
}

/// `s.len()` bytes hold a number below `256` to that power, in either order.
pub proof fn lemma_uint_value_bound(s: Seq<u8>, little: bool)
    ensures
        uint_value(s, little) < pow256(s.len()),
    decreases s.len(),
{
    if s.len() > 0 {
        if little {
            lemma_uint_value_bound(s.drop_first(), little);
        } else {
            lemma_uint_value_bound(s.drop_last(), little);
        }
    }
}

proof fn lemma_pow256_small()
    ensures
        pow256(1) == 0x100,
        pow256(2) == 0x1_0000,
        pow256(4) == 0x1_0000_0000,
        pow256(6) == 0x1_0000_0000_0000,
        pow256(8) == 0x1_0000_0000_0000_0000,
{
    reveal_with_fuel(pow256, 9);
}

proof fn lemma_pow256_monotone(m: nat, n: nat)
    requires
        m <= n,
    ensures
        pow256(m) <= pow256(n),
    decreases n,
{
    if m < n {
        lemma_pow256_monotone(m, (n - 1) as nat);
    }
}

/// Writing four bytes and reading them back in the same order gives the number written.
pub proof fn law_u32_bytes_round_trip(w: u32)
    ensures
        uint_value(le_bytes4(w), true) == w,
        uint_value(be_bytes4(w), false) == w,
{
    let l = le_bytes4(w);
    assert(l.drop_first() =~= seq![l[1], l[2], l[3]]);
    assert(l.drop_first().drop_first() =~= seq![l[2], l[3]]);
    assert(l.drop_first().drop_first().drop_first() =~= seq![l[3]]);
    assert(l.drop_first().drop_first().drop_first().drop_first() =~= seq![]);
    reveal_with_fuel(le_value, 5);
    let b = be_bytes4(w);
    assert(b.drop_last() =~= seq![b[0], b[1], b[2]]);
    assert(b.drop_last().drop_last() =~= seq![b[0], b[1]]);
    assert(b.drop_last().drop_last().drop_last() =~= seq![b[0]]);
    assert(b.drop_last().drop_last().drop_last().drop_last() =~= seq![]);
    reveal_with_fuel(be_value, 5);
}

/// Reads all of `bytes` as one unsigned number.
pub fn read_uint(bytes: &[u8], little: bool) -> (v: u64)
    requires
        bytes@.len() <= 8,
    ensures
        v == uint_value(bytes@, little),
        v < pow256(bytes@.len()),
{
    let n: usize = bytes.len();
    let mut v: u64 = 0;
    let mut i: usize = 0;
    proof {
        lemma_pow256_small();
        lemma_uint_value_bound(bytes@, little);
    }
    if little {
        assert(bytes@.skip(n as int) =~= seq![]);
        while i < n
            invariant
                i <= n == bytes@.len() <= 8,
                v == le_value(bytes@.skip(n - i)),
            decreases n - i,
        {
            proof {
                lemma_uint_value_bound(bytes@.skip(n - i), true);
                lemma_pow256_monotone(i as nat, 7);
                assert(pow256(7) == 0x100_0000_0000_0000) by {
                    reveal_with_fuel(pow256, 8);
                }
                assert(bytes@.skip(n - i - 1).drop_first() =~= bytes@.skip(n - i));
            }
            v = v * 256 + bytes[n - 1 - i] as u64;
            i = i + 1;
        }
        assert(bytes@.skip(0) =~= bytes@);
    } else {
        assert(bytes@.take(0) =~= seq![]);
        while i < n
            invariant
                i <= n == bytes@.len() <= 8,
                v == be_value(bytes@.take(i as int)),
            decreases n - i,
        {
            proof {
                lemma_uint_value_bound(bytes@.take(i as int), false);
                lemma_pow256_monotone(i as nat, 7);
                assert(pow256(7) == 0x100_0000_0000_0000) by {
                    reveal_with_fuel(pow256, 8);
                }
                assert(bytes@.take(i + 1).drop_last() =~= bytes@.take(i as int));
            }
            v = v * 256 + bytes[i] as u64;
            i = i + 1;
        }
        assert(bytes@.take(n as int) =~= bytes@);
    }
    v
}

/// Reads the two bytes from `from` on as a number.
pub fn read_u16_at(frame: &[u8], from: usize, little: bool) -> (v: u16)
    requires
        from + 2 <= frame@.len(),
    ensures
        v == uint_value(frame@.subrange(from as int, from + 2), little),
{
    assert(frame@.len() == frame.len());
    let v: u64 = read_uint(&frame[from..from + 2], little);
    proof {
        lemma_pow256_small();
    }
    v as u16
}

/// Reads the four bytes from `from` on as a number.
pub fn read_u32_at(frame: &[u8], from: usize, little: bool) -> (v: u32)
    requires
        from + 4 <= frame@.len(),
    ensures
        v == uint_value(frame@.subrange(from as int, from + 4), little),
{
    assert(frame@.len() == frame.len());
    let v: u64 = read_uint(&frame[from..from + 4], little);
    proof {
        lemma_pow256_small();
    }
    v as u32
}

/// Appends the four bytes of `w` to `out`, least significant first.
pub fn push_u32_le(out: &mut Vec<u8>, w: u32)
    ensures
        final(out)@ == old(out)@ + le_bytes4(w),
{
    out.push((w % 256) as u8);
    out.push((w / 256 % 256) as u8);
    out.push((w / 65536 % 256) as u8);
    out.push((w / 16777216) as u8);
    assert(out@ =~= old(out)@ + le_bytes4(w));
}

} // verus!
