//! The chained digest over a path: the path is split into consecutive chunks
//! of at most 32 bytes, and each chunk is folded into a running Keccak-256
//! digest. An empty path has no digest.

use vstd::prelude::*;

verus! {

/// What Keccak-256 returns on a byte sequence: a function of the bytes
/// alone, assumed only through `keccak_hash` below.
pub uninterp spec fn keccak256(data: Seq<u8>) -> Seq<u8>;

/// Relies on solana_program::keccak::hashv: the Keccak-256 digest of the
/// given bytes, 32 bytes long, depending on the bytes alone.
#[verifier::external_body]
fn keccak_hash(data: &[u8]) -> (r: Vec<u8>)
    ensures
        r@ == keccak256(data@),
        r@.len() == 32,
{
    solana_program::keccak::hashv(&[data]).to_bytes().to_vec()
}

/// One link of the digest chain: the first chunk is hashed as
/// `0x01 ‖ chunk`, every later chunk as `0x01 ‖ previous digest ‖ chunk`.
pub open spec fn chain_step(acc: Option<Seq<u8>>, chunk: Seq<u8>) -> Seq<u8> {
    match acc {
        Option::None => keccak256(seq![1u8] + chunk),
        Option::Some(h) => keccak256(seq![1u8] + h + chunk),
    }
}

/// Folds the chunks of `rest` (at most 32 bytes each, in order,
/// non-overlapping, the last possibly shorter) into the accumulator.
pub open spec fn fold_chunks(acc: Option<Seq<u8>>, rest: Seq<u8>) -> Option<Seq<u8>>
    decreases rest.len(),
{
    if rest.len() == 0 {
        acc
    } else {
        let k: int = if rest.len() < 32 { rest.len() as int } else { 32 };
        fold_chunks(Option::Some(chain_step(acc, rest.subrange(0, k))), rest.skip(k))
    }
}

/// The chained digest of a path: absent for an empty path, otherwise the
/// sequential, order-dependent fold of its chunks.
pub open spec fn digest_of(path: Seq<u8>) -> Option<Seq<u8>> {
    fold_chunks(Option::None, path)
}

/// The bytes held by an optional digest.
pub open spec fn opt_bytes(r: Option<Vec<u8>>) -> Option<Seq<u8>> {
    match r {
        Option::None => Option::None,
        Option::Some(d) => Option::Some(d@),
    }
}

/// Appends the bytes of `src` to `dst`.
fn append_bytes(dst: &mut Vec<u8>, src: &[u8])
    ensures
        final(dst)@ == old(dst)@ + src@,
{
    let ghost dst0 = dst@;
    let mut j: usize = 0;
    while j < src.len()
        invariant
            j <= src@.len(),
            dst@ == dst0 + src@.subrange(0, j as int),
        decreases src@.len() - j,
    {
        let b = src[j];
        dst.push(b);
        proof {
            assert(dst@ =~= dst0 + src@.subrange(0, j + 1));
        }
        j += 1;
    }
    proof {
        assert(src@.subrange(0, src@.len() as int) =~= src@);
    }
}

/// Computes the chained digest of `path`: each consecutive chunk of at most
/// 32 bytes is folded into the running digest, in path order. An empty path
/// yields no digest.
pub fn compute_digest(path: &[u8]) -> (r: Option<Vec<u8>>)
    ensures
        opt_bytes(r) == digest_of(path@),
        r is Some <==> path@.len() > 0,
        r matches Some(d) ==> d@.len() == 32,
{
    let mut acc: Option<Vec<u8>> = Option::None;
    let mut i: usize = 0;
    proof {
        assert(path@.skip(0) =~= path@);
    }
    while i < path.len()
        invariant
            i <= path@.len(),
            fold_chunks(opt_bytes(acc), path@.skip(i as int)) == digest_of(path@),
            acc is Some <==> i > 0,
            acc matches Some(h) ==> h@.len() == 32,
        decreases path@.len() - i,
    {
        let k: usize = if path.len() - i < 32 {
            path.len() - i
        } else {
            32
        };
        let ghost chunk = path@.subrange(i as int, i + k);
        let mut buf: Vec<u8> = Vec::new();
        buf.push(1u8);
        match &acc {
            Option::None => {}
            Option::Some(h) => {
                append_bytes(&mut buf, h.as_slice());
            }
        }
        append_bytes(&mut buf, &path[i..i + k]);
        proof {
            assert(buf@ == match opt_bytes(acc) {
                Option::None => seq![1u8] + chunk,
                Option::Some(h) => seq![1u8] + h + chunk,
            });
            assert(path@.skip(i as int).subrange(0, k as int) =~= chunk);
            assert(path@.skip(i as int).skip(k as int) =~= path@.skip(i + k));
        }
        let d = keccak_hash(buf.as_slice());
        acc = Option::Some(d);
        i = i + k;
    }
    proof {
        assert(path@.skip(i as int) =~= Seq::<u8>::empty());
    }
    acc
}

/// A path of a single chunk (at most 32 bytes, at least one) hashes in one
/// link: its digest is the hash of `0x01 ‖ path`.
pub proof fn lemma_digest_single_chunk(p: Seq<u8>)
    requires
        0 < p.len() <= 32,
    ensures
        digest_of(p) == Option::Some(keccak256(seq![1u8] + p)),
{
    let k: int = if p.len() < 32 {
        p.len() as int
    } else {
        32
    };
    assert(p.subrange(0, k) =~= p);
    assert(p.skip(k) =~= Seq::<u8>::empty());
    assert(fold_chunks(Option::Some(keccak256(seq![1u8] + p)), p.skip(k))
        == Option::Some(keccak256(seq![1u8] + p)));
}

/// A path of exactly two chunks folds as a chain: the second hash covers
/// the digest of the first chunk, not the raw first chunk, so the result is
/// the hash of `0x01 ‖ digest-of-first-chunk ‖ second-chunk` and not one
/// hash over the whole path.
pub proof fn lemma_digest_two_chunks(p: Seq<u8>)
    requires
        32 < p.len() <= 64,
    ensures
        digest_of(p) == Option::Some(
            keccak256(seq![1u8] + keccak256(seq![1u8] + p.subrange(0, 32)) + p.skip(32)),
        ),
{
    let c0 = p.subrange(0, 32);
    let rest = p.skip(32);
    let h0 = keccak256(seq![1u8] + c0);
    assert(digest_of(p) == fold_chunks(Option::Some(h0), rest));
    let k: int = if rest.len() < 32 {
        rest.len() as int
    } else {
        32
    };
    assert(rest.subrange(0, k) =~= rest);
    assert(rest.skip(k) =~= Seq::<u8>::empty());
    assert(fold_chunks(Option::Some(h0), rest) == fold_chunks(
        Option::Some(keccak256(seq![1u8] + h0 + rest)),
        rest.skip(k),
    ));
    assert(fold_chunks(Option::Some(keccak256(seq![1u8] + h0 + rest)), rest.skip(k))
        == Option::Some(keccak256(seq![1u8] + h0 + rest)));
}

/// Computing the digest twice over the same bytes yields the same digest:
/// the digest is a function of the path alone, so repeated computations on
/// identical input agree.
pub proof fn lemma_digest_deterministic(p: Seq<u8>, d1: Option<Seq<u8>>, d2: Option<Seq<u8>>)
    requires
        d1 == digest_of(p),
        d2 == digest_of(p),
    ensures
        d1 == d2,
{
}

} // verus!
