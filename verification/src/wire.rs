//! Little-endian integer framing used by the archive formats.

use vstd::prelude::*;

verus! {

/// The value of a byte sequence read as a little-endian integer.
pub open spec fn le_val(b: Seq<u8>) -> int
    decreases b.len(),
{
    if b.len() == 0 {
        0
    } else {
        b[0] + 256 * le_val(b.drop_first())
    }
}

/// 256 to the power `n`: the number of values an `n`-byte field can hold.
pub open spec fn pow256(n: nat) -> int
    decreases n,
{
    if n == 0 {
        1
    } else {
        256 * pow256((n - 1) as nat)
    }
}

/// The `n`-byte little-endian encoding of `v`.
pub open spec fn le_bytes(v: int, n: nat) -> Seq<u8>
    decreases n,
{
    if n == 0 {
        Seq::empty()
    } else {
        seq![(v % 256) as u8] + le_bytes(v / 256, (n - 1) as nat)
    }
}

pub proof fn lemma_pow256_positive(n: nat)
    ensures
        pow256(n) >= 1,
    decreases n,
{
    if n > 0 {
        lemma_pow256_positive((n - 1) as nat);
    }
}

pub proof fn lemma_pow256_monotonic(m: nat, n: nat)
    requires
        m <= n,
    ensures
        pow256(m) <= pow256(n),
    decreases n,
{
    if m < n {
        lemma_pow256_monotonic(m, (n - 1) as nat);
        lemma_pow256_positive((n - 1) as nat);
    }
}

pub proof fn lemma_pow256_16()
    ensures
        pow256(16) == 0x1_0000_0000_0000_0000_0000_0000_0000_0000,
        pow256(8) == 0x1_0000_0000_0000_0000,
        pow256(4) == 0x1_0000_0000,
        pow256(2) == 0x1_0000,
        pow256(1) == 0x100,
{
    reveal_with_fuel(pow256, 17);
}

pub proof fn lemma_le_bytes_len(v: int, n: nat)
    ensures
        le_bytes(v, n).len() == n,
    decreases n,
{
    if n > 0 {
        lemma_le_bytes_len(v / 256, (n - 1) as nat);
    }
}

/// A little-endian value is bounded by 256 to the length.
pub proof fn lemma_le_val_bound(b: Seq<u8>)
    ensures
        0 <= le_val(b) < pow256(b.len()),
    decreases b.len(),
{
    if b.len() > 0 {
        lemma_le_val_bound(b.drop_first());
    }
}

/// Decoding inverts encoding: the value of the `n`-byte encoding of `v` is `v`.
pub proof fn lemma_le_val_le_bytes(v: int, n: nat)
    requires
        0 <= v < pow256(n),
    ensures
        le_val(le_bytes(v, n)) == v,
    decreases n,
{
    if n > 0 {
        assert(0 <= v / 256 < pow256((n - 1) as nat)) by {
            lemma_pow256_positive((n - 1) as nat);
        }
        lemma_le_val_le_bytes(v / 256, (n - 1) as nat);
        assert(le_bytes(v, n).drop_first() =~= le_bytes(v / 256, (n - 1) as nat));
        assert(le_val(le_bytes(v, n)) == v % 256 + 256 * (v / 256));
    }
}

/// Appending one more byte to an encoding: the snoc form of `le_bytes`.
proof fn lemma_le_bytes_snoc(v: int, n: nat)
    requires
        v >= 0,
    ensures
        le_bytes(v, n + 1) == le_bytes(v, n).push((le_div_pow(v, n) % 256) as u8),
    decreases n,
{
    if n == 0 {
        assert(le_bytes(v, 1) == seq![(v % 256) as u8] + le_bytes(v / 256, 0));
        assert(le_div_pow(v, 0) == v);
        assert(seq![(v % 256) as u8] + Seq::<u8>::empty() =~= le_bytes(v, 0).push(
            (v % 256) as u8,
        ));
    } else {
        lemma_le_bytes_snoc(v / 256, (n - 1) as nat);
        assert(le_bytes(v, n + 1) =~= seq![(v % 256) as u8] + le_bytes(v / 256, n));
        assert(seq![(v % 256) as u8] + le_bytes(v / 256, (n - 1) as nat).push(
            (le_div_pow(v / 256, (n - 1) as nat) % 256) as u8,
        ) =~= le_bytes(v, n).push((le_div_pow(v / 256, (n - 1) as nat) % 256) as u8));
    }
}

/// `v` divided by 256 to the `n`, as a spec helper.
pub open spec fn le_div_pow(v: int, n: nat) -> int
    decreases n,
{
    if n == 0 {
        v
    } else {
        le_div_pow(v / 256, (n - 1) as nat)
    }
}

proof fn lemma_le_div_pow_succ(v: int, n: nat)
    requires
        v >= 0,
    ensures
        le_div_pow(v, n + 1) == le_div_pow(v, n) / 256,
    decreases n,
{
    assert(le_div_pow(v, n + 1) == le_div_pow(v / 256, n));
    if n > 0 {
        lemma_le_div_pow_succ(v / 256, (n - 1) as nat);
        assert(le_div_pow(v / 256, n) == le_div_pow(v / 256, (n - 1) as nat) / 256);
        assert(le_div_pow(v, n) == le_div_pow(v / 256, (n - 1) as nat));
    }
}

/// Appends the `n`-byte little-endian encoding of `v` to `out`.
pub fn push_le(out: &mut Vec<u8>, v: u128, n: usize)
    requires
        n <= 16,
        (v as int) < pow256(n as nat),
    ensures
        final(out)@ == old(out)@ + le_bytes(v as int, n as nat),
{
    let mut x: u128 = v;
    let mut i: usize = 0;
    proof {
        assert(out@ =~= old(out)@ + le_bytes(v as int, 0));
    }
    while i < n
        invariant
            i <= n <= 16,
            (v as int) < pow256(n as nat),
            x as int == le_div_pow(v as int, i as nat),
            out@ == old(out)@ + le_bytes(v as int, i as nat),
        decreases n - i,
    {
        proof {
            lemma_le_bytes_snoc(v as int, i as nat);
            assert(le_bytes(v as int, (i + 1) as nat) == le_bytes(v as int, i as nat).push(
                (x as int % 256) as u8,
            ));
            assert((old(out)@ + le_bytes(v as int, i as nat)).push((x % 256) as u8) =~= old(out)@
                + le_bytes(v as int, (i + 1) as nat)) by {
                lemma_le_bytes_len(v as int, i as nat);
            }
        }
        out.push((x % 256) as u8);
        proof {
            lemma_le_div_pow_succ(v as int, i as nat);
        }
        x = x / 256;
        i = i + 1;
    }
}

/// Reads an `n`-byte little-endian integer at `pos`; `None` when `data` is too short.
pub fn read_le(data: &[u8], pos: usize, n: usize) -> (r: Option<(u128, usize)>)
    requires
        n <= 16,
    ensures
        match r {
            Some(p) => pos + n <= data@.len() && p.1 == pos + n && p.0 as int == le_val(
                data@.subrange(pos as int, (pos + n) as int),
            ),
            None => pos + n > data@.len(),
        },
{
    if n > data.len() || pos > data.len() - n {
        return None;
    }
    let mut v: u128 = 0;
    let mut k: usize = n;
    proof {
        let empty = data@.subrange((pos + n) as int, (pos + n) as int);
        assert(empty =~= Seq::<u8>::empty());
        assert(le_val(empty) == 0);
    }
    while k > 0
        invariant
            k <= n <= 16,
            pos + n <= data@.len(),
            data@.len() <= usize::MAX,
            v as int == le_val(data@.subrange((pos + k) as int, (pos + n) as int)),
            (v as int) < pow256((n - k) as nat),
        decreases k,
    {
        let ghost pre = data@.subrange((pos + k) as int, (pos + n) as int);
        k = k - 1;
        let b = data[pos + k];
        let ghost cur = data@.subrange((pos + k) as int, (pos + n) as int);
        proof {
            assert(cur.drop_first() =~= pre);
            assert(cur[0] == b);
            assert(le_val(cur) == b + 256 * le_val(pre));
            assert(256 * (v as int) + b < pow256((n - k) as nat)) by {
                lemma_le_val_bound(pre);
                assert(pre.len() == n - k - 1);
            }
            assert(pow256((n - k) as nat) <= pow256(16)) by {
                lemma_pow256_monotonic((n - k) as nat, 16);
            }
            lemma_pow256_16();
        }
        v = 256 * v + (b as u128);
    }
    proof {
        assert(data@.subrange(pos as int, (pos + n) as int) == data@.subrange(
            (pos + k) as int,
            (pos + n) as int,
        ));
    }
    Some((v, pos + n))
}

} // verus!
