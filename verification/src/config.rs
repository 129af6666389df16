//! Default settings of a server.
use vstd::prelude::*;

use crate::ambient::{is_zdns_id, new_zdns_id};
use crate::types::{
    CacheConfig, EconomicConfig, MeshConfig, MeshNodeSelection, SecurityConfig, ZdnsConfig,
};

verus! {

/// The default listening port (the multicast DNS port).
pub const DEFAULT_PORT: u16 = 5353;

/// 0.01 as an `f64` bit pattern: the default access fee.
pub const DEFAULT_ACCESS_FEE: u64 = 0x3F84_7AE1_47AE_147B;

/// 0.2 as an `f64` bit pattern: the default owner share.
pub const DEFAULT_OWNER_SHARE: u64 = 0x3FC9_9999_9999_999A;

/// 0.4 as an `f64` bit pattern: the default UBI share.
pub const DEFAULT_UBI_SHARE: u64 = 0x3FD9_9999_9999_999A;

/// 0.3 as an `f64` bit pattern: the default network share.
pub const DEFAULT_NETWORK_SHARE: u64 = 0x3FD3_3333_3333_3333;

/// 0.1 as an `f64` bit pattern: the default hosting reward.
pub const DEFAULT_HOSTING_REWARD: u64 = 0x3FB9_9999_9999_999A;

/// 0.005 as an `f64` bit pattern: the default routing reward.
pub const DEFAULT_ROUTING_REWARDS: u64 = 0x3F74_7AE1_47AE_147B;

/// The default settings: port 5353, a node identity `zdns_` followed by a
/// random UUID, a 30 s query time limit, a distributed cache of 10000
/// answers with a 300 s TTL swept every 60 s, every security check on with
/// 100 queries per minute, and a mesh of at most 5 hops chosen by load.
pub open spec fn is_default_config(c: ZdnsConfig) -> bool {
    &&& c.port == DEFAULT_PORT
    &&& is_zdns_id(c.node_id@)
    &&& c.max_query_time == 30
    &&& c.cache_config == CacheConfig {
        enabled: true,
        max_size: 10000,
        default_ttl: 300,
        cleanup_interval: 60,
        distributed: true,
    }
    &&& c.economic_config == EconomicConfig {
        access_fee: DEFAULT_ACCESS_FEE,
        owner_share: DEFAULT_OWNER_SHARE,
        ubi_share: DEFAULT_UBI_SHARE,
        network_share: DEFAULT_NETWORK_SHARE,
        hosting_reward: DEFAULT_HOSTING_REWARD,
    }
    &&& c.security_config == SecurityConfig {
        require_zk_proofs: true,
        require_dao_fees: true,
        enable_pq_signatures: true,
        max_query_rate: 100,
        enable_query_logging: true,
    }
    &&& c.mesh_config == MeshConfig {
        enabled: true,
        max_hops: 5,
        node_selection: MeshNodeSelection::LoadBalance,
        routing_rewards: DEFAULT_ROUTING_REWARDS,
        enable_isp_bypass: true,
    }
}

impl Default for ZdnsConfig {
    fn default() -> (r: ZdnsConfig)
        ensures
            is_default_config(r),
    {
        let node_id = new_zdns_id();
        ZdnsConfig {
            port: DEFAULT_PORT,
            node_id,
            max_query_time: 30,
            cache_config: CacheConfig {
                enabled: true,
                max_size: 10000,
                default_ttl: 300,
                cleanup_interval: 60,
                distributed: true,
            },
            economic_config: EconomicConfig {
                access_fee: DEFAULT_ACCESS_FEE,
                owner_share: DEFAULT_OWNER_SHARE,
                ubi_share: DEFAULT_UBI_SHARE,
                network_share: DEFAULT_NETWORK_SHARE,
                hosting_reward: DEFAULT_HOSTING_REWARD,
            },
            security_config: SecurityConfig {
                require_zk_proofs: true,
                require_dao_fees: true,
                enable_pq_signatures: true,
                max_query_rate: 100,
                enable_query_logging: true,
            },
            mesh_config: MeshConfig {
                enabled: true,
                max_hops: 5,
                node_selection: MeshNodeSelection::LoadBalance,
                routing_rewards: DEFAULT_ROUTING_REWARDS,
                enable_isp_bypass: true,
            },
        }
    }
}

} // verus!
