//! The rules a query and a record must meet.
use vstd::prelude::*;

use crate::address::{is_ipv4_address, is_ipv4_text, is_ipv6_address, is_ipv6_text};
use crate::server::ZdnsServer;
use crate::text::{byte_len, contains_char, ends_with, has_suffix};
use crate::types::{failure, ErrorKind, Failure, ProtocolError, ZdnsQuery, ZdnsRecord, ZdnsRecordType};

verus! {

/// Fewest bytes an ownership proof may have.
pub const MIN_OWNERSHIP_PROOF_BYTES: usize = 64;

/// Fewest bytes a DAO fee proof may have.
pub const MIN_DAO_FEE_PROOF_BYTES: usize = 32;

/// `r` is the outcome that `rejection` calls for: the refusal it names, or success.
pub open spec fn outcome_matches(r: Result<(), ProtocolError>, rejection: Option<Failure>) -> bool {
    match rejection {
        Some(f) => r matches Err(e) && e@ == f,
        None => r is Ok,
    }
}

/// Why a query is refused before any lookup, if it is.
pub open spec fn query_rejection(q: ZdnsQuery) -> Option<Failure> {
    if q.name@.len() == 0 {
        Some(failure(ErrorKind::InvalidRequest, "Domain name cannot be empty"@))
    } else if !has_suffix(q.name@, ".zhtp"@) && !q.name@.contains('.') {
        Some(failure(ErrorKind::InvalidRequest, "Invalid domain format"@))
    } else {
        None
    }
}

/// A query that carries no authentication proof (none, or an empty one),
/// where proofs are required for every query.
pub open spec fn query_proof_rejection(q: ZdnsQuery, zk_required: bool) -> Option<Failure> {
    if zk_required && (q.query_proof is None || q.query_proof->Some_0@.len() == 0) {
        Some(failure(ErrorKind::ZkProofError, "Query proof required"@))
    } else {
        None
    }
}

/// The first reason to refuse a query before any lookup, on a server that
/// does (`zk_required`) or does not require a proof with every query.
pub open spec fn query_refusal(q: ZdnsQuery, zk_required: bool) -> Option<Failure> {
    if query_rejection(q) is Some {
        query_rejection(q)
    } else {
        query_proof_rejection(q, zk_required)
    }
}

/// Why a record's content is refused, if it is: a name and a value are
/// needed, address records must carry an address of their family, and mail
/// and service records need their routing numbers.
pub open spec fn record_rejection(r: ZdnsRecord) -> Option<Failure> {
    if r.name@.len() == 0 {
        Some(failure(ErrorKind::InvalidRequest, "Record name cannot be empty"@))
    } else if r.value@.len() == 0 {
        Some(failure(ErrorKind::InvalidRequest, "Record value cannot be empty"@))
    } else {
        match r.record_type {
            ZdnsRecordType::A => if !is_ipv4_text(r.value@) {
                Some(failure(ErrorKind::InvalidRequest, "Invalid IPv4 address"@))
            } else {
                None
            },
            ZdnsRecordType::AAAA => if !is_ipv6_text(r.value@) {
                Some(failure(ErrorKind::InvalidRequest, "Invalid IPv6 address"@))
            } else {
                None
            },
            ZdnsRecordType::MX => if r.priority is None {
                Some(failure(ErrorKind::InvalidRequest, "MX record requires priority"@))
            } else {
                None
            },
            ZdnsRecordType::SRV => if r.priority is None || r.weight is None || r.port is None {
                Some(
                    failure(
                        ErrorKind::InvalidRequest,
                        "SRV record requires priority, weight, and port"@,
                    ),
                )
            } else {
                None
            },
            _ => None,
        }
    }
}

/// The ownership proof of a record to be stored is too short.
pub open spec fn ownership_proof_rejection(r: ZdnsRecord) -> Option<Failure> {
    if byte_len(r.ownership_proof@) < MIN_OWNERSHIP_PROOF_BYTES {
        Some(failure(ErrorKind::ZkProofError, "Ownership proof too short"@))
    } else {
        None
    }
}

/// The DAO fee proof of a record to be stored is too short.
pub open spec fn dao_fee_proof_rejection(r: ZdnsRecord) -> Option<Failure> {
    if byte_len(r.dao_fee_proof@) < MIN_DAO_FEE_PROOF_BYTES {
        Some(failure(ErrorKind::DaoFeeError, "DAO fee proof too short"@))
    } else {
        None
    }
}

/// The first reason, in the order they are checked, to refuse storing `r`.
pub open spec fn registration_rejection(r: ZdnsRecord) -> Option<Failure> {
    if record_rejection(r) is Some {
        record_rejection(r)
    } else if ownership_proof_rejection(r) is Some {
        ownership_proof_rejection(r)
    } else {
        dao_fee_proof_rejection(r)
    }
}

/// A record without a post-quantum signature, where signatures are required.
pub open spec fn signature_rejection(r: ZdnsRecord, pq_required: bool) -> Option<Failure> {
    if pq_required && r.pq_signature@.len() == 0 {
        Some(failure(ErrorKind::InvalidRequest, "Post-quantum signature required"@))
    } else {
        None
    }
}

/// The first reason to refuse storing `r` on a server that does
/// (`pq_required`) or does not require post-quantum signatures.
pub open spec fn admission_rejection(r: ZdnsRecord, pq_required: bool) -> Option<Failure> {
    if registration_rejection(r) is Some {
        registration_rejection(r)
    } else {
        signature_rejection(r, pq_required)
    }
}

/// `r` passes every check of content and proofs that storing a record makes.
pub open spec fn record_accepted(r: ZdnsRecord) -> bool {
    registration_rejection(r) is None
}

/// Some record among `records` has an ownership proof too short to answer with.
pub open spec fn has_short_ownership_proof(records: Seq<ZdnsRecord>) -> bool {
    exists|i: int|
        0 <= i < records.len() && byte_len(#[trigger] records[i].ownership_proof@)
            < MIN_OWNERSHIP_PROOF_BYTES
}

fn invalid_request(message: &str) -> (e: ProtocolError)
    ensures
        e@ == failure(ErrorKind::InvalidRequest, message@),
{
    ProtocolError::InvalidRequest(message.to_owned())
}

impl ZdnsServer {
    /// Checks that a query names a domain in an acceptable form.
    pub fn validate_query(&self, query: &ZdnsQuery) -> (r: Result<(), ProtocolError>)
        ensures
            outcome_matches(r, query_rejection(*query)),
    {
        let name = query.name.as_str();
        if name.is_empty() {
            return Err(invalid_request("Domain name cannot be empty"));
        }
        if !ends_with(name, ".zhtp") && !contains_char(name, '.') {
            return Err(invalid_request("Invalid domain format"));
        }
        Ok(())
    }

    /// Checks that a query carries an authentication proof when this server
    /// requires zero-knowledge proofs for all queries.
    pub fn validate_query_proof(&self, query: &ZdnsQuery) -> (r: Result<(), ProtocolError>)
        ensures
            outcome_matches(
                r,
                query_proof_rejection(*query, self.config_view().security_config.require_zk_proofs),
            ),
    {
        if self.zk_proofs_required() {
            let missing = match &query.query_proof {
                Some(p) => p.as_str().is_empty(),
                None => true,
            };
            if missing {
                return Err(ProtocolError::ZkProofError("Query proof required".to_owned()));
            }
        }
        Ok(())
    }

    /// Checks the content of a record against the rules of its type.
    pub fn validate_record(&self, record: &ZdnsRecord) -> (r: Result<(), ProtocolError>)
        ensures
            outcome_matches(r, record_rejection(*record)),
    {
        if record.name.as_str().is_empty() {
            return Err(invalid_request("Record name cannot be empty"));
        }
        if record.value.as_str().is_empty() {
            return Err(invalid_request("Record value cannot be empty"));
        }
        match record.record_type {
            ZdnsRecordType::A => {
                if !is_ipv4_address(record.value.as_str()) {
                    return Err(invalid_request("Invalid IPv4 address"));
                }
            },
            ZdnsRecordType::AAAA => {
                if !is_ipv6_address(record.value.as_str()) {
                    return Err(invalid_request("Invalid IPv6 address"));
                }
            },
            ZdnsRecordType::MX => {
                if record.priority.is_none() {
                    return Err(invalid_request("MX record requires priority"));
                }
            },
            ZdnsRecordType::SRV => {
                if record.priority.is_none() || record.weight.is_none() || record.port.is_none() {
                    return Err(invalid_request("SRV record requires priority, weight, and port"));
                }
            },
            _ => {},
        }
        Ok(())
    }

    /// Checks that a record comes with an ownership proof of the required size.
    pub fn validate_ownership_proof(&self, record: &ZdnsRecord) -> (r: Result<(), ProtocolError>)
        ensures
            outcome_matches(r, ownership_proof_rejection(*record)),
    {
        if record.ownership_proof.as_str().len() < MIN_OWNERSHIP_PROOF_BYTES {
            return Err(ProtocolError::ZkProofError("Ownership proof too short".to_owned()));
        }
        Ok(())
    }

    /// Checks that a record comes with a DAO fee proof of the required size.
    pub fn validate_dao_fee_proof(&self, record: &ZdnsRecord) -> (r: Result<(), ProtocolError>)
        ensures
            outcome_matches(r, dao_fee_proof_rejection(*record)),
    {
        if record.dao_fee_proof.as_str().len() < MIN_DAO_FEE_PROOF_BYTES {
            return Err(ProtocolError::DaoFeeError("DAO fee proof too short".to_owned()));
        }
        Ok(())
    }

    /// Checks that every record about to be answered carries an ownership
    /// proof of the required size.
    pub fn validate_zk_proofs(&self, records: &[ZdnsRecord]) -> (r: Result<(), ProtocolError>)
        ensures
            outcome_matches(
                r,
                if has_short_ownership_proof(records@) {
                    Some(failure(ErrorKind::ZkProofError, "Invalid ownership proof"@))
                } else {
                    None
                },
            ),
    {
        let n = records.len();
        let mut i: usize = 0;
        while i < n
            invariant
                n == records@.len(),
                i <= n,
                forall|j: int|
                    0 <= j < i ==> byte_len(#[trigger] records@[j].ownership_proof@)
                        >= MIN_OWNERSHIP_PROOF_BYTES,
            decreases n - i,
        {
            if records[i].ownership_proof.as_str().len() < MIN_OWNERSHIP_PROOF_BYTES {
                assert(byte_len(records@[i as int].ownership_proof@) < MIN_OWNERSHIP_PROOF_BYTES);
                return Err(ProtocolError::ZkProofError("Invalid ownership proof".to_owned()));
            }
            i = i + 1;
        }
        Ok(())
    }

    /// Checks that a record carries a post-quantum signature when this
    /// server requires one.
    pub fn validate_pq_signature(&self, record: &ZdnsRecord) -> (r: Result<(), ProtocolError>)
        ensures
            outcome_matches(
                r,
                signature_rejection(*record, self.config_view().security_config.enable_pq_signatures),
            ),
    {
        if self.pq_signatures_required() && record.pq_signature.as_str().is_empty() {
            return Err(invalid_request("Post-quantum signature required"));
        }
        Ok(())
    }

    /// Runs every check that storing a record makes, in order.
    pub(crate) fn validate_registration(&self, record: &ZdnsRecord) -> (r: Result<(), ProtocolError>)
        ensures
            outcome_matches(
                r,
                admission_rejection(*record, self.config_view().security_config.enable_pq_signatures),
            ),
    {
        self.validate_record(record)?;
        self.validate_ownership_proof(record)?;
        self.validate_dao_fee_proof(record)?;
        self.validate_pq_signature(record)
    }
}

} // verus!
