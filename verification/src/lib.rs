//! A zero-knowledge domain name service: record registration and
//! validation, resolution with an answer cache, and query accounting.

pub mod address;
pub mod ambient;
pub mod config;
pub mod laws;
pub mod model;
pub mod server;
pub mod text;
pub mod types;
pub mod validate;

pub use server::{cache_key, dao_fee_amount, CachedRecord, QueryStats, ZdnsServer};
pub use types::{
    CacheConfig, CacheInfo, EconomicConfig, EconomicTransaction, ErrorKind, FeeShares, MeshConfig,
    MeshNodeSelection, ProtocolError, SecurityConfig, Timestamp, ZdnsConfig, ZdnsFlags, ZdnsQuery,
    ZdnsRecord, ZdnsRecordMetadata, ZdnsRecordType, ZdnsResponse, ZdnsResponseMetadata,
};
