//! Words of the calling convention: counts, offsets and zero padding.

use vstd::prelude::*;
use crate::abi::{be_bytes, be_value, count_at, count_word, zeros};

verus! {

/// 256 to the power of `k`.
pub open spec fn pow256(k: nat) -> nat
    decreases k,
{
    if k == 0 {
        1
    } else {
        256 * pow256((k - 1) as nat)
    }
}

/// Bytes spell a number below 256 to the power of their count.
pub proof fn lemma_be_value_bound(bytes: Seq<u8>)
    ensures
        be_value(bytes) < pow256(bytes.len()),
    decreases bytes.len(),
{
    if bytes.len() > 0 {
        lemma_be_value_bound(bytes.drop_last());
    }
}

/// The digits of a number have the length asked for, and spell the number
/// where it is small enough for them.
pub proof fn lemma_be_bytes(n: nat, len: nat)
    ensures
        be_bytes(n, len).len() == len,
        n < pow256(len) ==> be_value(be_bytes(n, len)) == n,
    decreases len,
{
    if len > 0 {
        lemma_be_bytes(n / 256, (len - 1) as nat);
        if n < pow256(len) {
            assert(n / 256 < pow256((len - 1) as nat)) by (nonlinear_arith)
                requires
                    n < 256 * pow256((len - 1) as nat),
            ;
            assert(be_bytes(n, len).drop_last() =~= be_bytes(n / 256, (len - 1) as nat));
        }
    }
}

/// The seventh and eighth powers of 256, written out.
pub proof fn lemma_pow256_8()
    ensures
        pow256(8) == 0x1_0000_0000_0000_0000,
        pow256(7) == 0x100_0000_0000_0000,
{
    reveal_with_fuel(pow256, 9);
}

/// A count word has 32 bytes.
pub proof fn lemma_count_word_len(n: nat)
    ensures
        count_word(n).len() == 32,
{
    lemma_be_bytes(n, 8);
}

/// A count below 2^64 is read back from its word, wherever the word stands.
pub proof fn lemma_count_at_word(buf: Seq<u8>, pos: int, n: nat)
    requires
        n <= u64::MAX,
        0 <= pos,
        pos + 32 <= buf.len(),
        buf.subrange(pos, pos + 32) == count_word(n),
    ensures
        count_at(buf, pos) == Some(n),
{
    lemma_be_bytes(n, 8);
    lemma_pow256_8();
    let word = buf.subrange(pos, pos + 32);
    assert(buf.subrange(pos, pos + 24) =~= word.subrange(0, 24));
    assert(word.subrange(0, 24) =~= zeros(24));
    assert(buf.subrange(pos + 24, pos + 32) =~= word.subrange(24, 32));
    assert(word.subrange(24, 32) =~= be_bytes(n, 8));
}

/// Append `n` zero bytes.
pub fn put_zeros(out: &mut Vec<u8>, n: usize)
    ensures
        final(out)@ == old(out)@ + zeros(n as nat),
{
    let mut i: usize = 0;
    while i < n
        invariant
            i <= n,
            out@ == old(out)@ + zeros(i as nat),
        decreases n - i,
    {
        out.push(0);
        i += 1;
        proof {
            assert(out@ =~= old(out)@ + zeros(i as nat));
        }
    }
}

/// Append the last `len` base-256 digits of `n`.
fn put_digits(out: &mut Vec<u8>, n: u64, len: u8)
    ensures
        final(out)@ == old(out)@ + be_bytes(n as nat, len as nat),
    decreases len,
{
    if len == 0 {
        proof {
            assert(out@ =~= old(out)@ + be_bytes(n as nat, 0));
        }
        return ;
    }
    put_digits(out, n / 256, len - 1);
    out.push((n % 256) as u8);
    proof {
        assert(out@ =~= old(out)@ + be_bytes(n as nat, len as nat));
    }
}

/// Append the word that holds a count or an offset.
pub fn put_count(out: &mut Vec<u8>, n: usize)
    ensures
        final(out)@ == old(out)@ + count_word(n as nat),
{
    put_zeros(out, 24);
    put_digits(out, n as u64, 8);
    proof {
        assert(out@ =~= old(out)@ + count_word(n as nat));
    }
}

/// Whether the bytes from `start` up to `end` are all zero.
pub fn all_zero(buf: &[u8], start: usize, end: usize) -> (r: bool)
    requires
        start <= end <= buf@.len(),
    ensures
        r == (buf@.subrange(start as int, end as int) == zeros((end - start) as nat)),
{
    let mut i: usize = start;
    while i < end
        invariant
            start <= i <= end <= buf@.len(),
            forall|j: int| start <= j < i ==> buf@[j] == 0,
        decreases end - i,
    {
        if buf[i] != 0 {
            proof {
                let part = buf@.subrange(start as int, end as int);
                assert(part[i - start] != 0);
                assert(zeros((end - start) as nat)[i - start] == 0);
            }
            return false;
        }
        i += 1;
    }
    proof {
        assert(buf@.subrange(start as int, end as int) =~= zeros((end - start) as nat));
    }
    true
}

/// Read the count or offset in the word at `pos`. A word outside the
/// buffer, or one whose number does not fit a `usize`, is refused.
pub fn take_count(buf: &[u8], pos: usize) -> (r: Option<usize>)
    ensures
        match count_at(buf@, pos as int) {
            Some(n) => if n <= usize::MAX {
                r == Some(n as usize)
            } else {
                r is None
            },
            None => r is None,
        },
{
    if buf.len() < 32 || pos > buf.len() - 32 {
        return None;
    }
    if !all_zero(buf, pos, pos + 24) {
        return None;
    }
    let mut acc: u64 = 0;
    let mut i: usize = 0;
    while i < 8
        invariant
            i <= 8,
            pos + 32 <= buf@.len() <= usize::MAX,
            acc as nat == be_value(buf@.subrange(pos + 24, pos + 24 + i)),
            (acc as nat) < pow256(i as nat),
        decreases 8 - i,
    {
        let ghost before = buf@.subrange(pos + 24, pos + 24 + i);
        let b = buf[pos + 24 + i];
        proof {
            reveal_with_fuel(pow256, 9);
            let after = buf@.subrange(pos + 24, pos + 24 + i + 1);
            assert(after.drop_last() =~= before);
            assert(after.last() == b);
            assert(pow256(i as nat) <= pow256(7));
        }
        acc = acc * 256 + b as u64;
        i += 1;
    }
    if acc > usize::MAX as u64 {
        None
    } else {
        Some(acc as usize)
    }
}

} // verus!
