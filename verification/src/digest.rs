//! Content digests: `sha256:` and the lower-case hexadecimal SHA-256 of the bytes.

use vstd::prelude::*;
use crate::reports::json_text::hex_digit;

verus! {

/// The SHA-256 hash of `bytes`, as `sha2` computes it.
pub uninterp spec fn spec_sha256(bytes: Seq<u8>) -> Seq<u8>;

/// `sha2::Sha256::digest(bytes)`: the 32-byte SHA-256 hash.
#[verifier::external_body]
fn sha256(bytes: &[u8]) -> (res: Vec<u8>)
    ensures
        res@ == spec_sha256(bytes@),
        res@.len() == 32,
{
    <sha2::Sha256 as sha2::Digest>::digest(bytes).to_vec()
}

/// Two lower-case hexadecimal digits per byte.
pub open spec fn hex_text(bytes: Seq<u8>) -> Seq<char>
    decreases bytes.len(),
{
    if bytes.len() == 0 {
        seq![]
    } else {
        hex_text(bytes.drop_last()) + seq![
            hex_digit((bytes.last() / 16) as nat),
            hex_digit((bytes.last() % 16) as nat),
        ]
    }
}

/// Two digits per byte.
pub proof fn lemma_hex_text_len(bytes: Seq<u8>)
    ensures
        hex_text(bytes).len() == 2 * bytes.len(),
    decreases bytes.len(),
{
    if bytes.len() > 0 {
        lemma_hex_text_len(bytes.drop_last());
    }
}

/// The digest text of `bytes`.
pub open spec fn digest_text(bytes: Seq<u8>) -> Seq<char> {
    "sha256:"@ + hex_text(spec_sha256(bytes))
}

fn hex_digit_of(d: u8) -> (res: char)
    requires
        d < 16,
    ensures
        res == hex_digit(d as nat),
{
    if d < 10 {
        (d + 48) as char
    } else {
        (d + 87) as char
    }
}

/// `sha256:` followed by the lower-case hexadecimal SHA-256 of `bytes`.
pub fn digest(bytes: &[u8]) -> (res: String)
    ensures
        res@ == digest_text(bytes@),
        res@.len() == 71,
{
    let hash = sha256(bytes);
    let mut out = crate::text::chars_of("sha256:");
    let ghost prefix = out@;
    let mut i: usize = 0;
    assert(hash@.take(0) =~= seq![]);
    assert(out@ =~= prefix + hex_text(hash@.take(0)));
    while i < hash.len()
        invariant
            0 <= i <= hash@.len(),
            prefix == "sha256:"@,
            out@ == prefix + hex_text(hash@.take(i as int)),
        decreases hash@.len() - i,
    {
        assert(hash@.take(i + 1).drop_last() =~= hash@.take(i as int));
        let b = hash[i];
        out.push(hex_digit_of(b / 16));
        out.push(hex_digit_of(b % 16));
        assert(out@ =~= prefix + hex_text(hash@.take(i + 1)));
        i = i + 1;
    }
    assert(hash@.take(i as int) =~= hash@);
    proof {
        lemma_hex_text_len(hash@);
        reveal_strlit("sha256:");
    }
    crate::text::string_of(out.as_slice())
}

} // verus!
