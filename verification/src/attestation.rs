//! DSSE envelopes: pre-authentication encoding and trusted Ed25519 key checks.

use vstd::prelude::*;
use base64::Engine;
use vstd::string::StringSliceAdditionalSpecFns;

verus! {

/// Payload type of a signed manual-acceptance record.
pub const PAYLOAD_TYPE: &'static str = "application/vnd.qualitygate.manual-acceptance.v1+json";

/// Largest accepted acceptance envelope, in bytes.
pub const MAX_ENVELOPE_BYTES: usize = 1048576;

/// The ASCII decimal digits of `n`, most significant first, without leading zeros.
pub open spec fn decimal(n: nat) -> Seq<u8>
    decreases n,
{
    if n < 10 {
        seq![(48 + n) as u8]
    } else {
        decimal(n / 10).push((48 + n % 10) as u8)
    }
}

/// The decimal digits of `n`.
pub fn decimal_digits(n: usize) -> (res: Vec<u8>)
    ensures
        res@ == decimal(n as nat),
    decreases n,
{
    if n < 10 {
        let mut v = Vec::new();
        v.push((48 + n) as u8);
        v
    } else {
        let mut v = decimal_digits(n / 10);
        v.push((48 + n % 10) as u8);
        v
    }
}

/// `DSSEv1 `.
pub open spec fn dsse_prefix() -> Seq<u8> {
    seq![68u8, 83, 83, 69, 118, 49, 32]
}

/// DSSE pre-authentication encoding of a payload type and payload:
/// `DSSEv1 <len(type)> <type> <len(payload)> <payload>`.
pub open spec fn spec_pae(payload_type: Seq<u8>, payload: Seq<u8>) -> Seq<u8> {
    dsse_prefix() + decimal(payload_type.len()) + seq![32u8] + payload_type + seq![32u8] + decimal(
        payload.len(),
    ) + seq![32u8] + payload
}

fn append(v: &mut Vec<u8>, tail: &[u8])
    ensures
        final(v)@ == old(v)@ + tail@,
{
    let mut i: usize = 0;
    while i < tail.len()
        invariant
            0 <= i <= tail@.len(),
            v@ == old(v)@ + tail@.subrange(0, i as int),
        decreases tail@.len() - i,
    {
        v.push(tail[i]);
        i = i + 1;
        assert(v@ =~= old(v)@ + tail@.subrange(0, i as int));
    }
    assert(tail@.subrange(0, tail@.len() as int) =~= tail@);
}

/// DSSE pre-authentication encoding binds both the type and the exact payload bytes.
pub fn pae(payload_type: &str, payload: &[u8]) -> (res: Vec<u8>)
    ensures
        res@ == spec_pae(payload_type.spec_bytes(), payload@),
{
    let type_bytes = payload_type.as_bytes();
    let mut encoded: Vec<u8> = Vec::new();
    let prefix: Vec<u8> = vec![68, 83, 83, 69, 118, 49, 32];
    append(&mut encoded, &prefix);
    append(&mut encoded, &decimal_digits(type_bytes.len()));
    encoded.push(32);
    append(&mut encoded, type_bytes);
    encoded.push(32);
    append(&mut encoded, &decimal_digits(payload.len()));
    encoded.push(32);
    append(&mut encoded, payload);
    assert(encoded@ =~= spec_pae(payload_type.spec_bytes(), payload@));
    encoded
}

} // verus!

verus! {

/// The four base64 alphabets/padding modes that envelopes may use.
#[derive(Debug, Clone, Copy, PartialEq, Eq, Structural)]
pub enum Base64Engine {
    Standard,
    UrlSafe,
    StandardNoPad,
    UrlSafeNoPad,
}

/// What `base64`'s general-purpose engine of this kind decodes `text` to.
pub uninterp spec fn spec_base64_decode(engine: Base64Engine, text: Seq<char>) -> Option<Seq<u8>>;

/// `base64::engine::general_purpose::{STANDARD, URL_SAFE, STANDARD_NO_PAD,
/// URL_SAFE_NO_PAD}.decode`: the decoded bytes, or `None` when `text` is not valid
/// for that engine. The result is named, not restated.
#[verifier::external_body]
fn base64_decode(engine: Base64Engine, text: &str) -> (res: Option<Vec<u8>>)
    ensures
        res matches Some(v) ==> spec_base64_decode(engine, text@) == Some(v@),
        res is None ==> spec_base64_decode(engine, text@) is None,
{
    let engine = match engine {
        Base64Engine::Standard => base64::engine::general_purpose::STANDARD,
        Base64Engine::UrlSafe => base64::engine::general_purpose::URL_SAFE,
        Base64Engine::StandardNoPad => base64::engine::general_purpose::STANDARD_NO_PAD,
        Base64Engine::UrlSafeNoPad => base64::engine::general_purpose::URL_SAFE_NO_PAD,
    };
    engine.decode(text).ok()
}

/// Why an envelope or trust store was refused.
#[derive(Debug, Clone, Copy, PartialEq, Eq, Structural)]
pub enum AttestationError {
    /// A value is not base64 in any supported encoding.
    InvalidBase64,
    /// An Ed25519 public key is not 32 bytes.
    KeyLength,
    /// 32 bytes that are not an Ed25519 public key.
    InvalidKey,
    /// A weak (small-order) or repeated Ed25519 public key.
    WeakOrDuplicateKey,
}

/// The first supported base64 encoding that accepts `text`.
pub open spec fn spec_decode(text: Seq<char>) -> Option<Seq<u8>> {
    if spec_base64_decode(Base64Engine::Standard, text) is Some {
        spec_base64_decode(Base64Engine::Standard, text)
    } else if spec_base64_decode(Base64Engine::UrlSafe, text) is Some {
        spec_base64_decode(Base64Engine::UrlSafe, text)
    } else if spec_base64_decode(Base64Engine::StandardNoPad, text) is Some {
        spec_base64_decode(Base64Engine::StandardNoPad, text)
    } else {
        spec_base64_decode(Base64Engine::UrlSafeNoPad, text)
    }
}

/// Decode base64 in the standard or URL-safe alphabet, padded or not.
pub fn decode(value: &str) -> (res: Result<Vec<u8>, AttestationError>)
    ensures
        res matches Ok(v) ==> spec_decode(value@) == Some(v@),
        res is Err ==> spec_decode(value@) is None && res == Err::<Vec<u8>, AttestationError>(
            AttestationError::InvalidBase64,
        ),
{
    if let Some(v) = base64_decode(Base64Engine::Standard, value) {
        return Ok(v);
    }
    if let Some(v) = base64_decode(Base64Engine::UrlSafe, value) {
        return Ok(v);
    }
    if let Some(v) = base64_decode(Base64Engine::StandardNoPad, value) {
        return Ok(v);
    }
    if let Some(v) = base64_decode(Base64Engine::UrlSafeNoPad, value) {
        return Ok(v);
    }
    Err(AttestationError::InvalidBase64)
}

/// How `ed25519_dalek` judges 32 public-key bytes.
#[derive(Debug, Clone, Copy, PartialEq, Eq, Structural)]
pub enum KeyStatus {
    /// Not the encoding of a curve point.
    Invalid,
    /// A small-order (weak) point.
    Weak,
    /// A usable verifying key.
    Usable,
}

/// `ed25519_dalek::VerifyingKey::from_bytes` followed by `is_weak` on these bytes.
pub uninterp spec fn spec_key_status(bytes: Seq<u8>) -> KeyStatus;

/// `ed25519_dalek::VerifyingKey::from_bytes(bytes)` and, on success, `is_weak()`:
/// the status depends on the bytes alone and is named, not restated.
#[verifier::external_body]
fn key_status(bytes: &[u8]) -> (res: KeyStatus)
    requires
        bytes@.len() == 32,
    ensures
        res == spec_key_status(bytes@),
{
    let array: [u8; 32] = bytes.try_into().unwrap();
    match ed25519_dalek::VerifyingKey::from_bytes(&array) {
        Err(_) => KeyStatus::Invalid,
        Ok(key) => if key.is_weak() { KeyStatus::Weak } else { KeyStatus::Usable },
    }
}

/// One trusted signer.
#[derive(Debug, Clone)]
pub struct TrustedKey {
    pub id: String,
    pub public_key: String,
    pub checks: Vec<String>,
    pub provenance_rules: Vec<String>,
    pub tasks: Vec<String>,
    pub allow_repository_checks: bool,
}

/// The signers trusted for one repository.
#[derive(Debug, Clone)]
pub struct TrustStore {
    pub schema_version: u32,
    pub repository: String,
    pub keys: Vec<TrustedKey>,
    pub revoked_records: Vec<String>,
    pub max_age_seconds: u64,
}

/// Why the first unusable key among `keys` is refused, given the key bytes seen before it.
pub open spec fn key_error(keys: Seq<Seq<char>>, seen: Seq<Seq<u8>>) -> Option<AttestationError>
    decreases keys.len(),
{
    if keys.len() == 0 {
        None
    } else {
        match spec_decode(keys[0]) {
            None => Some(AttestationError::InvalidBase64),
            Some(bytes) => if bytes.len() != 32 {
                Some(AttestationError::KeyLength)
            } else if spec_key_status(bytes) == KeyStatus::Invalid {
                Some(AttestationError::InvalidKey)
            } else if spec_key_status(bytes) == KeyStatus::Weak || seen.contains(bytes) {
                Some(AttestationError::WeakOrDuplicateKey)
            } else {
                key_error(keys.drop_first(), seen.push(bytes))
            },
        }
    }
}

/// The public-key texts of a list of trusted keys.
pub open spec fn public_keys(keys: Seq<TrustedKey>) -> Seq<Seq<char>> {
    keys.map_values(|k: TrustedKey| k.public_key@)
}

fn bytes_equal(a: &[u8], b: &[u8]) -> (res: bool)
    ensures
        res == (a@ == b@),
{
    if a.len() != b.len() {
        return false;
    }
    let mut i: usize = 0;
    while i < a.len()
        invariant
            a@.len() == b@.len(),
            0 <= i <= a@.len(),
            forall|j: int| 0 <= j < i ==> a@[j] == b@[j],
        decreases a@.len() - i,
    {
        if a[i] != b[i] {
            return false;
        }
        i = i + 1;
    }
    assert(a@ =~= b@);
    true
}

fn seen_contains(seen: &Vec<Vec<u8>>, bytes: &[u8]) -> (res: bool)
    ensures
        res == exists|j: int| 0 <= j < seen@.len() && (#[trigger] seen@[j])@ == bytes@,
{
    let mut i: usize = 0;
    while i < seen.len()
        invariant
            0 <= i <= seen@.len(),
            forall|j: int| 0 <= j < i ==> (#[trigger] seen@[j])@ != bytes@,
        decreases seen@.len() - i,
    {
        if bytes_equal(&seen[i], bytes) {
            return true;
        }
        i = i + 1;
    }
    false
}

/// The byte strings held by a list of byte vectors.
pub open spec fn byte_views(v: Seq<Vec<u8>>) -> Seq<Seq<u8>> {
    v.map_values(|b: Vec<u8>| b@)
}

/// Every configured public key decodes to 32 bytes of a usable, distinct Ed25519 key.
pub fn validate_keys(store: &TrustStore) -> (res: Result<(), AttestationError>)
    ensures
        res matches Err(e) ==> key_error(public_keys(store.keys@), Seq::empty()) == Some(e),
        res is Ok ==> key_error(public_keys(store.keys@), Seq::empty()) is None,
{
    let ghost all = public_keys(store.keys@);
    let mut seen: Vec<Vec<u8>> = Vec::new();
    let mut i: usize = 0;
    assert(all.skip(0) =~= all);
    assert(byte_views(seen@) =~= Seq::<Seq<u8>>::empty());
    while i < store.keys.len()
        invariant
            0 <= i <= store.keys@.len(),
            all == public_keys(store.keys@),
            key_error(all, Seq::empty()) == key_error(all.skip(i as int), byte_views(seen@)),
        decreases store.keys@.len() - i,
    {
        assert(all.skip(i as int).drop_first() =~= all.skip(i + 1));
        assert(all.skip(i as int)[0] == store.keys@[i as int].public_key@);
        let bytes = match decode(store.keys[i].public_key.as_str()) {
            Ok(b) => b,
            Err(e) => return Err(e),
        };
        if bytes.len() != 32 {
            return Err(AttestationError::KeyLength);
        }
        let status = key_status(&bytes);
        if status == KeyStatus::Invalid {
            return Err(AttestationError::InvalidKey);
        }
        let dup = seen_contains(&seen, &bytes);
        proof {
            if dup {
                let j = choose|j: int| 0 <= j < seen@.len() && (#[trigger] seen@[j])@ == bytes@;
                assert(byte_views(seen@)[j] == bytes@);
            } else {
                assert forall|j: int| 0 <= j < byte_views(seen@).len() implies byte_views(seen@)[j] != bytes@ by {
                    assert(byte_views(seen@)[j] == seen@[j]@);
                }
            }
        }
        if status == KeyStatus::Weak || dup {
            return Err(AttestationError::WeakOrDuplicateKey);
        }
        let ghost old_seen = seen@;
        seen.push(bytes);
        assert(byte_views(seen@) =~= byte_views(old_seen).push(bytes@));
        i = i + 1;
    }
    assert(all.skip(i as int).len() == 0);
    Ok(())
}

} // verus!

verus! {

/// Every byte of a decimal is an ASCII digit.
pub proof fn decimal_digits_only(n: nat)
    ensures
        forall|i: int| 0 <= i < decimal(n).len() ==> 48 <= #[trigger] decimal(n)[i] <= 57,
        decimal(n).len() >= 1,
        decimal(n).len() == 1 <==> n < 10,
    decreases n,
{
    if n >= 10 {
        decimal_digits_only(n / 10);
        assert forall|i: int| 0 <= i < decimal(n).len() implies 48 <= #[trigger] decimal(n)[i] <= 57 by {
            if i < decimal(n / 10).len() {
                assert(decimal(n)[i] == decimal(n / 10)[i]);
            }
        }
    }
}

/// Different numbers have different decimals.
pub proof fn decimal_injective(a: nat, b: nat)
    requires
        decimal(a) == decimal(b),
    ensures
        a == b,
    decreases a,
{
    decimal_digits_only(a);
    decimal_digits_only(b);
    if a >= 10 {
        assert(b >= 10);
        assert(decimal(a).drop_last() =~= decimal(a / 10));
        assert(decimal(b).drop_last() =~= decimal(b / 10));
        decimal_injective(a / 10, b / 10);
        assert(decimal(a).last() == decimal(b).last());
        assert(decimal(a).last() == (48 + a % 10) as u8);
        assert(decimal(b).last() == (48 + b % 10) as u8);
        assert(a % 10 == b % 10);
        assert(a == 10 * (a / 10) + a % 10);
        assert(b == 10 * (b / 10) + b % 10);
    } else {
        assert(b < 10);
        assert(decimal(a)[0] == decimal(b)[0]);
        assert(decimal(a)[0] == (48 + a) as u8);
        assert(decimal(b)[0] == (48 + b) as u8);
    }
}

/// A decimal followed by a space is read back unambiguously.
proof fn decimal_field(a: nat, b: nat, x: Seq<u8>, y: Seq<u8>)
    requires
        decimal(a) + seq![32u8] + x == decimal(b) + seq![32u8] + y,
    ensures
        a == b,
        x == y,
{
    let s = decimal(a) + seq![32u8] + x;
    let la = decimal(a).len() as int;
    let lb = decimal(b).len() as int;
    decimal_digits_only(a);
    decimal_digits_only(b);
    if la < lb {
        assert(s[la] == 32u8);
        assert((decimal(b) + seq![32u8] + y)[la] == decimal(b)[la]);
    } else if lb < la {
        assert((decimal(b) + seq![32u8] + y)[lb] == 32u8);
        assert(s[lb] == decimal(a)[lb]);
    }
    assert(la == lb);
    assert(s.take(la) =~= decimal(a));
    assert((decimal(b) + seq![32u8] + y).take(lb) =~= decimal(b));
    decimal_injective(a, b);
    assert(s.skip(la + 1) =~= x);
    assert((decimal(b) + seq![32u8] + y).skip(lb + 1) =~= y);
}

/// The payload part of an encoding: the payload's length, a space and the payload.
pub open spec fn payload_field(p: Seq<u8>) -> Seq<u8> {
    decimal(p.len()) + seq![32u8] + p
}

/// The encoding after its `DSSEv1 ` prefix.
pub open spec fn typed_fields(t: Seq<u8>, p: Seq<u8>) -> Seq<u8> {
    decimal(t.len()) + seq![32u8] + (t + (seq![32u8] + payload_field(p)))
}

proof fn pae_shape(t: Seq<u8>, p: Seq<u8>)
    ensures
        spec_pae(t, p).skip(7) == typed_fields(t, p),
{
    assert(spec_pae(t, p) =~= dsse_prefix() + typed_fields(t, p));
    assert((dsse_prefix() + typed_fields(t, p)).skip(7) =~= typed_fields(t, p));
}

proof fn type_field(t1: Seq<u8>, p1: Seq<u8>, t2: Seq<u8>, p2: Seq<u8>)
    requires
        t1.len() == t2.len(),
        t1 + (seq![32u8] + payload_field(p1)) == t2 + (seq![32u8] + payload_field(p2)),
    ensures
        t1 == t2,
        payload_field(p1) == payload_field(p2),
{
    let x1 = t1 + (seq![32u8] + payload_field(p1));
    let x2 = t2 + (seq![32u8] + payload_field(p2));
    assert(x1.take(t1.len() as int) =~= t1);
    assert(x2.take(t2.len() as int) =~= t2);
    assert(x1.skip(t1.len() as int + 1) =~= payload_field(p1));
    assert(x2.skip(t2.len() as int + 1) =~= payload_field(p2));
}

/// The pre-authentication encoding binds both the payload type and the exact
/// payload bytes: two encodings are equal only for the same type and payload.
pub proof fn pae_binds_type_and_payload(t1: Seq<u8>, p1: Seq<u8>, t2: Seq<u8>, p2: Seq<u8>)
    requires
        spec_pae(t1, p1) == spec_pae(t2, p2),
    ensures
        t1 == t2,
        p1 == p2,
{
    pae_shape(t1, p1);
    pae_shape(t2, p2);
    decimal_field(t1.len(), t2.len(), t1 + (seq![32u8] + payload_field(p1)), t2 + (seq![32u8] + payload_field(p2)));
    type_field(t1, p1, t2, p2);
    decimal_field(p1.len(), p2.len(), p1, p2);
}

} // verus!
