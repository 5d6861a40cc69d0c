//! Policy approvals are signed by their own trusted human keys.

use vstd::prelude::*;
use crate::attestation::{key_error, public_keys, AttestationError, TrustStore, TrustedKey};

verus! {

/// Payload type of a signed policy approval.
pub const PAYLOAD_TYPE: &'static str = "application/vnd.qualitygate.policy-approval.v1+json";

/// A key trusted to approve policy evolution.
#[derive(Debug, Clone)]
pub struct ApprovalKey {
    pub id: String,
    pub public_key: String,
}

/// The trust configuration for policy evolution.
#[derive(Debug, Clone)]
pub struct EvolutionTrust {
    pub repository: String,
    pub approval_keys: Vec<ApprovalKey>,
    pub max_age_seconds: u64,
}

/// The public-key texts of the approval keys.
pub open spec fn approval_public_keys(keys: Seq<ApprovalKey>) -> Seq<Seq<char>> {
    keys.map_values(|k: ApprovalKey| k.public_key@)
}

fn policy_promotion() -> (res: String)
    ensures
        res@ == "policy-promotion"@,
{
    String::from_str("policy-promotion")
}

/// The trust store of approval keys: each key may sign only `policy-promotion`
/// repository checks.
pub(crate) fn keys(trust: &EvolutionTrust) -> (res: TrustStore)
    ensures
        res.repository@ == trust.repository@,
        res.max_age_seconds == trust.max_age_seconds,
        res.schema_version == 1,
        res.revoked_records@.len() == 0,
        res.keys@.len() == trust.approval_keys@.len(),
        forall|i: int|
            0 <= i < res.keys@.len() ==> {
                &&& (#[trigger] res.keys@[i]).id@ == trust.approval_keys@[i].id@
                &&& res.keys@[i].public_key@ == trust.approval_keys@[i].public_key@
                &&& res.keys@[i].checks@.len() == 1
                &&& res.keys@[i].checks@[0]@ == "policy-promotion"@
                &&& res.keys@[i].provenance_rules@.len() == 0
                &&& res.keys@[i].tasks@.len() == 0
                &&& res.keys@[i].allow_repository_checks
            },
{
    let mut keys: Vec<TrustedKey> = Vec::new();
    let mut i: usize = 0;
    while i < trust.approval_keys.len()
        invariant
            0 <= i <= trust.approval_keys@.len(),
            keys@.len() == i,
            forall|j: int|
                0 <= j < i ==> {
                    &&& (#[trigger] keys@[j]).id@ == trust.approval_keys@[j].id@
                    &&& keys@[j].public_key@ == trust.approval_keys@[j].public_key@
                    &&& keys@[j].checks@.len() == 1
                    &&& keys@[j].checks@[0]@ == "policy-promotion"@
                    &&& keys@[j].provenance_rules@.len() == 0
                    &&& keys@[j].tasks@.len() == 0
                    &&& keys@[j].allow_repository_checks
                },
        decreases trust.approval_keys@.len() - i,
    {
        let key = &trust.approval_keys[i];
        let mut checks = Vec::new();
        checks.push(policy_promotion());
        keys.push(
            TrustedKey {
                id: key.id.clone(),
                public_key: key.public_key.clone(),
                checks,
                provenance_rules: Vec::new(),
                tasks: Vec::new(),
                allow_repository_checks: true,
            },
        );
        i = i + 1;
    }
    TrustStore {
        schema_version: 1,
        repository: trust.repository.clone(),
        keys,
        revoked_records: Vec::new(),
        max_age_seconds: trust.max_age_seconds,
    }
}

/// Every approval key decodes to 32 bytes of a usable, distinct Ed25519 key.
pub fn validate_keys(trust: &EvolutionTrust) -> (res: Result<(), AttestationError>)
    ensures
        res matches Err(e) ==> key_error(approval_public_keys(trust.approval_keys@), Seq::empty())
            == Some(e),
        res is Ok ==> key_error(approval_public_keys(trust.approval_keys@), Seq::empty()) is None,
{
    let store = keys(trust);
    assert(public_keys(store.keys@) =~= approval_public_keys(trust.approval_keys@));
    crate::attestation::validate_keys(&store)
}

} // verus!
