//! Caching for generated embeddings.

/// The embedding cache.
pub mod cache_embeddings;
/// Joining caches.
pub mod merge;

use crate::text::number::{hex_of, to_hex};
use sha2::{Digest, Sha256};
use vstd::prelude::*;

verus! {

/// `n` in `width` bytes, the least significant first.
pub open spec fn le_bytes(n: nat, width: nat) -> Seq<u8>
    decreases width,
{
    if width == 0 {
        Seq::empty()
    } else {
        seq![(n % 256) as u8] + le_bytes(n / 256, (width - 1) as nat)
    }
}

/// What one part adds to the hashed bytes: its length in eight bytes, and
/// itself.
pub open spec fn frame(part: Seq<u8>) -> Seq<u8> {
    le_bytes(part.len(), 8) + part
}

/// The hashed bytes: the frame of every part, in order.
pub open spec fn framed(parts: Seq<Seq<u8>>) -> Seq<u8>
    decreases parts.len(),
{
    if parts.len() == 0 {
        Seq::empty()
    } else {
        frame(parts[0]) + framed(parts.drop_first())
    }
}

/// The SHA-256 digest of some bytes, as `sha2` computes it.
pub uninterp spec fn sha256_digest(bytes: Seq<u8>) -> Seq<u8>;

/// The key made of `parts`: the hexadecimal SHA-256 of their frames.
pub open spec fn key_of(parts: Seq<Seq<u8>>) -> Seq<char> {
    hex_of(sha256_digest(framed(parts)))
}

/// The contents of a list of slices.
pub open spec fn slices_view(parts: Seq<&[u8]>) -> Seq<Seq<u8>> {
    parts.map_values(|part: &[u8]| part@)
}

/// `width` bytes are `width` long.
pub proof fn lemma_le_bytes_len(n: nat, width: nat)
    ensures
        le_bytes(n, width).len() == width,
    decreases width,
{
    if width > 0 {
        lemma_le_bytes_len(n / 256, (width - 1) as nat);
    }
}

/// Numbers that fit in `width` bytes are told apart by them.
pub proof fn lemma_le_bytes_injective(a: nat, b: nat, width: nat)
    requires
        le_bytes(a, width) == le_bytes(b, width),
        a < vstd::arithmetic::power::pow(256, width),
        b < vstd::arithmetic::power::pow(256, width),
    ensures
        a == b,
    decreases width,
{
    reveal(vstd::arithmetic::power::pow);
    if width > 0 {
        let rest = (width - 1) as nat;
        let (s, t) = (le_bytes(a, width), le_bytes(b, width));
        assert(s[0] == (a % 256) as u8);
        assert(t[0] == (b % 256) as u8);
        assert(s.drop_first() =~= le_bytes(a / 256, rest));
        assert(t.drop_first() =~= le_bytes(b / 256, rest));
        let p = vstd::arithmetic::power::pow(256, rest);
        assert(vstd::arithmetic::power::pow(256, width) == 256 * p);
        assert(a / 256 < p) by (nonlinear_arith)
            requires
                a < 256 * p,
        ;
        assert(b / 256 < p) by (nonlinear_arith)
            requires
                b < 256 * p,
        ;
        lemma_le_bytes_injective(a / 256, b / 256, rest);
    }
}

/// No two lists of parts are framed alike, so moving a byte from one part to
/// the next changes what is hashed. Parts are shorter than 2^64 bytes.
pub proof fn lemma_framed_injective(a: Seq<Seq<u8>>, b: Seq<Seq<u8>>)
    requires
        framed(a) == framed(b),
        forall|i: int| 0 <= i < a.len() ==> (#[trigger] a[i]).len() <= u64::MAX,
        forall|i: int| 0 <= i < b.len() ==> (#[trigger] b[i]).len() <= u64::MAX,
    ensures
        a == b,
    decreases a.len(),
{
    if a.len() > 0 {
        lemma_le_bytes_len(a[0].len(), 8);
    }
    if b.len() > 0 {
        lemma_le_bytes_len(b[0].len(), 8);
    }
    if a.len() == 0 || b.len() == 0 {
        assert(a =~= b);
    } else {
        let whole = framed(a);
        assert(whole.take(8) =~= le_bytes(a[0].len(), 8));
        assert(whole.take(8) =~= le_bytes(b[0].len(), 8));
        assert(vstd::arithmetic::power::pow(256, 8) == 0x1_0000_0000_0000_0000) by {
            reveal_with_fuel(vstd::arithmetic::power::pow, 9);
        }
        assert(a[0].len() <= u64::MAX);
        assert(b[0].len() <= u64::MAX);
        lemma_le_bytes_injective(a[0].len(), b[0].len(), 8);
        let n = a[0].len() as int;
        assert(whole.subrange(8, 8 + n) =~= a[0]);
        assert(whole.subrange(8, 8 + n) =~= b[0]);
        assert(whole.skip(8 + n) =~= framed(a.drop_first()));
        assert(whole.skip(8 + n) =~= framed(b.drop_first()));
        assert forall|i: int| 0 <= i < a.drop_first().len() implies (
        #[trigger] a.drop_first()[i]).len() <= u64::MAX by {
            assert(a[i + 1].len() <= u64::MAX);
        }
        assert forall|i: int| 0 <= i < b.drop_first().len() implies (
        #[trigger] b.drop_first()[i]).len() <= u64::MAX by {
            assert(b[i + 1].len() <= u64::MAX);
        }
        lemma_framed_injective(a.drop_first(), b.drop_first());
        assert(a =~= seq![a[0]] + a.drop_first());
        assert(b =~= seq![b[0]] + b.drop_first());
    }
}

/// Framing one more part appends its frame.
proof fn lemma_framed_push(parts: Seq<Seq<u8>>, part: Seq<u8>)
    ensures
        framed(parts.push(part)) == framed(parts) + frame(part),
    decreases parts.len(),
{
    let all = parts.push(part);
    if parts.len() == 0 {
        assert(framed(all.drop_first()) =~= Seq::empty());
        assert(framed(parts) =~= Seq::empty());
        assert(all[0] == part);
        assert(framed(all) =~= framed(parts) + frame(part));
    } else {
        assert(all.drop_first() =~= parts.drop_first().push(part));
        lemma_framed_push(parts.drop_first(), part);
        assert(framed(all) =~= framed(parts) + frame(part));
    }
}

/// Appends `n` to `out` in `width` bytes, the least significant first.
pub(crate) fn push_le(out: &mut Vec<u8>, n: u64, width: usize)
    ensures
        final(out)@ == old(out)@ + le_bytes(n as nat, width as nat),
{
    let mut rest: u64 = n;
    let mut left: usize = width;
    proof {
        assert(out@ + le_bytes(n as nat, width as nat) =~= old(out)@ + le_bytes(
            n as nat,
            width as nat,
        ));
    }
    while left > 0
        invariant
            out@ + le_bytes(rest as nat, left as nat) == old(out)@ + le_bytes(
                n as nat,
                width as nat,
            ),
        decreases left,
    {
        let ghost before = out@;
        let byte: u8 = (rest % 256) as u8;
        out.push(byte);
        proof {
            assert(before + le_bytes(rest as nat, left as nat) =~= out@ + le_bytes(
                (rest / 256) as nat,
                (left - 1) as nat,
            ));
        }
        rest = rest / 256;
        left -= 1;
    }
    proof {
        assert(out@ + le_bytes(rest as nat, 0) =~= out@);
    }
}

/// `n` in `width` bytes, the least significant first.
pub(crate) fn to_le(n: u64, width: usize) -> (r: Vec<u8>)
    ensures
        r@ == le_bytes(n as nat, width as nat),
{
    let mut out: Vec<u8> = Vec::new();
    push_le(&mut out, n, width);
    proof {
        assert(out@ =~= le_bytes(n as nat, width as nat));
    }
    out
}

/// The SHA-256 digest of `bytes`. Calls `Sha256::digest` of `sha2`.
///
/// Claims that the digest depends on the bytes alone and is 32 bytes long.
#[verifier::external_body]
fn sha256(bytes: &[u8]) -> (r: Vec<u8>)
    ensures
        r@ == sha256_digest(bytes@),
        r@.len() == 32,
{
    Sha256::digest(bytes).to_vec()
}

/// A stable hex SHA-256 of `parts`. Each part is prefixed with its length, so
/// `["ab", "c"]` and `["a", "bc"]` hash differently.
pub fn hash_key(parts: &[&[u8]]) -> (r: String)
    ensures
        r@ == key_of(slices_view(parts@)),
        r@.len() == 64,
{
    let mut bytes: Vec<u8> = Vec::new();
    let ghost views = slices_view(parts@);
    let mut i: usize = 0;
    proof {
        assert(views.take(0) =~= Seq::empty());
    }
    while i < parts.len()
        invariant
            i <= parts@.len(),
            views == slices_view(parts@),
            bytes@ == framed(views.take(i as int)),
        decreases parts@.len() - i,
    {
        let ghost before = bytes@;
        let part: &[u8] = parts[i];
        push_le(&mut bytes, part.len() as u64, 8);
        let mut j: usize = 0;
        while j < part.len()
            invariant
                j <= part@.len(),
                bytes@ == before + le_bytes(part@.len(), 8) + part@.take(j as int),
            decreases part@.len() - j,
        {
            bytes.push(part[j]);
            proof {
                assert(part@.take(j + 1) =~= part@.take(j as int).push(part@[j as int]));
                assert(bytes@ =~= before + le_bytes(part@.len(), 8) + part@.take(j + 1));
            }
            j += 1;
        }
        proof {
            assert(part@.take(part@.len() as int) =~= part@);
            assert(bytes@ =~= before + frame(part@));
            lemma_framed_push(views.take(i as int), part@);
            assert(views.take(i + 1) =~= views.take(i as int).push(part@));
        }
        i += 1;
    }
    proof {
        assert(views.take(views.len() as int) =~= views);
    }
    let digest = sha256(bytes.as_slice());
    to_hex(&digest)
}

} // verus!
