//! A seed drawn from an amount and a block height: the base64 text of the SHA-256 digest
//! of their little-endian bytes.
use vstd::prelude::*;
use sha2::Digest;
use base64ct::Encoding;

verus! {

/// The `n` lowest bytes of `v`, least significant first.
pub open spec fn le_bytes(v: nat, n: nat) -> Seq<u8>
    decreases n,
{
    if n == 0 {
        Seq::empty()
    } else {
        seq![(v % 256) as u8] + le_bytes(v / 256, (n - 1) as nat)
    }
}

/// The SHA-256 digest of a byte string.
pub uninterp spec fn sha256_digest(data: Seq<u8>) -> Seq<u8>;

/// The standard base64 text (with padding) of a byte string.
pub uninterp spec fn base64_text(data: Seq<u8>) -> Seq<char>;

/// `sha2::Sha256::digest`: the SHA-256 digest of `data`, 32 bytes long.
#[verifier::external_body]
fn sha256(data: &Vec<u8>) -> (r: Vec<u8>)
    ensures
        r@ == sha256_digest(data@),
        r@.len() == 32,
{
    sha2::Sha256::digest(data.as_slice()).to_vec()
}

/// `base64ct::Base64::encode_string`: the standard base64 text of `data`.
#[verifier::external_body]
fn base64_encode(data: &Vec<u8>) -> (r: String)
    ensures
        r@ == base64_text(data@),
{
    base64ct::Base64::encode_string(data.as_slice())
}

/// Appends the `n` lowest bytes of `v`, least significant first.
fn push_le_bytes(out: &mut Vec<u8>, v: u128, n: usize)
    requires
        n <= 16,
    ensures
        final(out)@ == old(out)@ + le_bytes(v as nat, n as nat),
{
    let ghost start = out@;
    let mut rest: u128 = v;
    let mut i: usize = 0;
    proof {
        assert(start + le_bytes(v as nat, 0) =~= start);
    }
    while i < n
        invariant
            i <= n,
            start + le_bytes(v as nat, n as nat) == out@ + le_bytes(rest as nat, (n - i) as nat),
        decreases n - i,
    {
        let b: u8 = (rest % 256) as u8;
        proof {
            let tail = le_bytes((rest / 256) as nat, (n - i - 1) as nat);
            assert(le_bytes(rest as nat, (n - i) as nat) == seq![b] + tail);
            assert(out@ + (seq![b] + tail) =~= out@.push(b) + tail);
        }
        out.push(b);
        rest = rest / 256;
        i = i + 1;
    }
    proof {
        assert(le_bytes(rest as nat, 0) =~= Seq::<u8>::empty());
        assert(out@ + Seq::<u8>::empty() =~= out@);
    }
}

/// The seed of an amount and a block height: the base64 text of the SHA-256 digest of the
/// amount's 16 little-endian bytes followed by the height's 8.
pub fn get_seed(token_amounts: u128, block_height: u64) -> (s: String)
    ensures
        s@ == base64_text(sha256_digest(le_bytes(token_amounts as nat, 16) + le_bytes(block_height as nat, 8))),
{
    let mut bytes: Vec<u8> = Vec::new();
    push_le_bytes(&mut bytes, token_amounts, 16);
    push_le_bytes(&mut bytes, block_height as u128, 8);
    proof {
        assert(Seq::<u8>::empty() + le_bytes(token_amounts as nat, 16) =~= le_bytes(token_amounts as nat, 16));
    }
    let hash = sha256(&bytes);
    base64_encode(&hash)
}

} // verus!
