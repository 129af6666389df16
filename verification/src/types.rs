//! The data the service works on: records, queries, responses, settings
//! and errors.
//!
//! Amounts that the service carries but never computes with (fees, shares,
//! ratios) are held as the IEEE-754 bit patterns of the `f64` values they
//! stand for. Points in time are seconds and nanoseconds since the Unix
//! epoch, in UTC.
use vstd::prelude::*;

verus! {

/// Kinds of records a domain can hold.
#[derive(Debug, Clone, Copy, PartialEq, Eq, Structural, Hash)]
pub enum ZdnsRecordType {
    /// Address record (IPv4)
    A,
    /// Address record (IPv6)
    AAAA,
    /// Canonical name record
    CNAME,
    /// Mail exchange record
    MX,
    /// Text record
    TXT,
    /// Service location record
    SRV,
    /// Mesh node record
    MESH,
    /// Zero-knowledge proof record
    ZK,
    /// DAO governance record
    DAO,
    /// Economic incentive record
    ECON,
    /// Identity verification record
    ID,
    /// Content hash record
    CONTENT,
    /// Multi-signature record
    MULTISIG,
    /// Post-quantum signature record
    PQS,
}

/// A point in time: whole seconds since the Unix epoch (UTC) and the
/// nanoseconds past that second.
#[derive(Debug, Clone, Copy, PartialEq, Eq, Structural)]
pub struct Timestamp {
    pub secs: i64,
    pub nanos: u32,
}

/// The last second that the calendar library's UTC date-times can hold
/// (the end of year 262142).
pub const MAX_CLOCK_SECS: i64 = 8_210_266_876_799;

/// Nanoseconds in one second.
pub const NANOS_PER_SEC: u32 = 1_000_000_000;

impl Timestamp {
    /// `self` is strictly earlier than `other`.
    pub open spec fn precedes(self, other: Timestamp) -> bool {
        ||| self.secs < other.secs
        ||| (self.secs == other.secs && self.nanos < other.nanos)
    }

    /// A time the clock can report: not before the epoch, within the
    /// calendar's range, and with fewer than a second of nanoseconds.
    pub open spec fn in_clock_range(self) -> bool {
        &&& 0 <= self.secs <= MAX_CLOCK_SECS
        &&& self.nanos < NANOS_PER_SEC
    }

    /// `self` moved `n` seconds later.
    pub open spec fn after_seconds(self, n: int) -> Timestamp {
        Timestamp { secs: (self.secs + n) as i64, nanos: self.nanos }
    }

    /// Whether `self` is strictly later than `other`.
    pub fn is_later_than(&self, other: &Timestamp) -> (r: bool)
        ensures
            r == other.precedes(*self),
    {
        other.secs < self.secs || (other.secs == self.secs && other.nanos < self.nanos)
    }

    /// The time `n` seconds after `self`.
    pub fn plus_seconds(&self, n: u32) -> (r: Timestamp)
        requires
            self.secs + n <= i64::MAX,
        ensures
            r == self.after_seconds(n as int),
    {
        Timestamp { secs: self.secs + n as i64, nanos: self.nanos }
    }
}

/// Fee and revenue-sharing settings, each the bit pattern of an `f64`.
#[derive(Debug, Clone, Copy, PartialEq, Eq, Structural)]
pub struct EconomicConfig {
    /// Required DAO fee for domain access
    pub access_fee: u64,
    /// Revenue share of the domain owner
    pub owner_share: u64,
    /// Share that goes to universal basic income
    pub ubi_share: u64,
    /// Share that goes to network maintenance
    pub network_share: u64,
    /// Reward for hosting mesh nodes
    pub hosting_reward: u64,
}

/// Bookkeeping that travels with a record.
#[derive(Debug, Clone)]
pub struct ZdnsRecordMetadata {
    pub created_at: Timestamp,
    pub updated_at: Timestamp,
    /// Identity of the record's owner
    pub owner_id: String,
    pub version: u32,
    pub economic_config: Option<EconomicConfig>,
    pub access_policy: Option<String>,
    pub content_hash: Option<String>,
}

/// A record of a domain, with the proofs that came with it.
#[derive(Debug, Clone)]
pub struct ZdnsRecord {
    /// Domain the record belongs to
    pub name: String,
    pub record_type: ZdnsRecordType,
    /// Record data
    pub value: String,
    /// Time-to-live in seconds
    pub ttl: u32,
    /// Zero-knowledge proof of ownership
    pub ownership_proof: String,
    /// Post-quantum signature
    pub pq_signature: String,
    /// Proof that the registration fee was paid
    pub dao_fee_proof: String,
    /// Priority (MX, SRV)
    pub priority: Option<u16>,
    /// Weight (SRV)
    pub weight: Option<u16>,
    /// Service port (SRV)
    pub port: Option<u16>,
    /// Target host (CNAME, SRV)
    pub target: Option<String>,
    pub metadata: ZdnsRecordMetadata,
}

/// A question put to the service.
#[derive(Debug, Clone)]
pub struct ZdnsQuery {
    /// Domain name to resolve
    pub name: String,
    pub record_type: ZdnsRecordType,
    /// Query class (IN)
    pub class: u16,
    /// Identifier echoed in the response
    pub id: u16,
    pub recursion_desired: bool,
    pub dnssec_ok: bool,
    pub query_proof: Option<String>,
    /// Fee offered for the query, as the bit pattern of an `f64`
    pub dao_fee: Option<u64>,
    pub client_id: Option<String>,
}

/// Header flags of a response.
#[derive(Debug, Clone, Copy, PartialEq, Eq, Structural)]
pub struct ZdnsFlags {
    /// This is a response
    pub qr: bool,
    pub opcode: u8,
    /// Authoritative answer
    pub aa: bool,
    /// Truncated
    pub tc: bool,
    /// Recursion desired
    pub rd: bool,
    /// Recursion available
    pub ra: bool,
    /// Ownership proofs were checked
    pub zk: bool,
    /// A DAO fee was processed
    pub dao: bool,
    pub rcode: u8,
}

/// What a query was charged; each amount is the bit pattern of an `f64`.
#[derive(Debug, Clone)]
pub struct EconomicTransaction {
    pub tx_id: String,
    pub dao_fee_paid: u64,
    pub ubi_contribution: u64,
    pub owner_payment: u64,
    pub network_fee: u64,
    /// Reward per hosting node
    pub hosting_rewards: Vec<(String, u64)>,
}

/// The parts a query's DAO fee is split into, each the bit pattern of an
/// `f64`.
#[derive(Debug, Clone, Copy, PartialEq, Eq, Structural)]
pub struct FeeShares {
    pub ubi_contribution: u64,
    pub network_fee: u64,
    pub owner_payment: u64,
    pub hosting_reward: u64,
}

/// How a cached answer was served.
#[derive(Debug, Clone)]
pub struct CacheInfo {
    pub cached: bool,
    /// Cache hit ratio, as the bit pattern of an `f64`
    pub hit_ratio: u64,
    pub expires_at: Timestamp,
    pub cache_nodes: Vec<String>,
}

#[derive(Debug, Clone)]
pub struct ZdnsResponseMetadata {
    pub timestamp: Timestamp,
    pub processing_time_ms: u64,
    pub server_node_id: String,
    pub economic_details: Option<EconomicTransaction>,
    pub cache_info: Option<CacheInfo>,
}

/// The answer to a query.
#[derive(Debug, Clone)]
pub struct ZdnsResponse {
    pub id: u16,
    pub flags: ZdnsFlags,
    pub questions: Vec<ZdnsQuery>,
    pub answers: Vec<ZdnsRecord>,
    pub authority: Vec<ZdnsRecord>,
    pub additional: Vec<ZdnsRecord>,
    pub metadata: ZdnsResponseMetadata,
}

#[derive(Debug, Clone, Copy, PartialEq, Eq, Structural)]
pub struct CacheConfig {
    pub enabled: bool,
    /// Largest number of cached answers
    pub max_size: usize,
    /// TTL, in seconds, for cached answers
    pub default_ttl: u32,
    /// Seconds between cache sweeps
    pub cleanup_interval: u64,
    /// Share the cache across the mesh
    pub distributed: bool,
}

#[derive(Debug, Clone, Copy, PartialEq, Eq, Structural)]
pub struct SecurityConfig {
    /// Check ownership proofs of answered records
    pub require_zk_proofs: bool,
    /// Charge a DAO fee for answered queries
    pub require_dao_fees: bool,
    pub enable_pq_signatures: bool,
    /// Queries per client per minute
    pub max_query_rate: u32,
    pub enable_query_logging: bool,
}

/// How mesh nodes are chosen.
#[derive(Debug, Clone, Copy, PartialEq, Eq, Structural)]
pub enum MeshNodeSelection {
    Latency,
    Reliability,
    Economic,
    LoadBalance,
    Random,
}

#[derive(Debug, Clone, Copy, PartialEq, Eq, Structural)]
pub struct MeshConfig {
    pub enabled: bool,
    pub max_hops: u8,
    pub node_selection: MeshNodeSelection,
    /// Routing reward, as the bit pattern of an `f64`
    pub routing_rewards: u64,
    pub enable_isp_bypass: bool,
}

/// Settings of a server.
#[derive(Debug, Clone)]
pub struct ZdnsConfig {
    pub port: u16,
    /// Identity of this server node
    pub node_id: String,
    /// Longest query processing time, in seconds
    pub max_query_time: u64,
    pub cache_config: CacheConfig,
    pub economic_config: EconomicConfig,
    pub security_config: SecurityConfig,
    pub mesh_config: MeshConfig,
}

/// Why a request was refused.
#[derive(Debug, Clone)]
pub enum ProtocolError {
    InvalidRequest(String),
    AccessDenied(String),
    ZkProofError(String),
    DaoFeeError(String),
    /// The server could not do its own part, such as reading the clock.
    InternalError(String),
}

/// The class of a refusal.
#[derive(Debug, Clone, Copy, PartialEq, Eq, Structural)]
pub enum ErrorKind {
    InvalidRequest,
    AccessDenied,
    ZkProofError,
    DaoFeeError,
    InternalError,
}

/// A refusal as contracts speak of it: its class and its message.
pub struct Failure {
    pub kind: ErrorKind,
    pub message: Seq<char>,
}

impl View for ProtocolError {
    type V = Failure;

    open spec fn view(&self) -> Failure {
        match self {
            ProtocolError::InvalidRequest(m) => Failure { kind: ErrorKind::InvalidRequest, message: m@ },
            ProtocolError::AccessDenied(m) => Failure { kind: ErrorKind::AccessDenied, message: m@ },
            ProtocolError::ZkProofError(m) => Failure { kind: ErrorKind::ZkProofError, message: m@ },
            ProtocolError::DaoFeeError(m) => Failure { kind: ErrorKind::DaoFeeError, message: m@ },
            ProtocolError::InternalError(m) => Failure { kind: ErrorKind::InternalError, message: m@ },
        }
    }
}

pub open spec fn failure(kind: ErrorKind, message: Seq<char>) -> Failure {
    Failure { kind, message }
}

} // verus!
