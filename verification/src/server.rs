//! The server: its record store, its answer cache and its statistics.
use vstd::prelude::*;
use vstd::hash_map::StringHashMap;

use crate::ambient::{millis_since, new_zdns_id, start_timer, utc_now};
use crate::model::{
    cache_after_store, cache_hit_response, distinct_keys, entries_map, keeps_entry,
    lemma_entries_absent, lemma_entries_lookup, new_cache_entry, newest, CacheEntries, cache_key_text, cache_lookup, delete_outcome,
    domain_well_formed, first_of_type, first_owned, has_type, is_first_of_type, is_first_owned,
    lemma_first_of_type_is, lemma_first_owned_is, lemma_type_present_has_first,
    records_well_formed, register_outcome, resolve_outcome, resolved_response, type_label,
    update_outcome, with_record, CACHED_ANSWER_LIFETIME_SECS, CACHED_PROCESSING_TIME_MS,
    fee_transaction, query_fee, DEFAULT_QUERY_FEE, log_after, rate_limited, recent_call_by,
    still_counts, counts_at, log_in_clock_range, CallLog, RATE_WINDOW_SECS,
};
use crate::text::same_text;
use crate::types::{
    failure, CacheInfo, EconomicTransaction, ErrorKind, FeeShares, ProtocolError, Timestamp, ZdnsConfig,
    ZdnsFlags, ZdnsQuery, ZdnsRecord, ZdnsRecordMetadata, ZdnsRecordType, ZdnsResponse,
    ZdnsResponseMetadata,
};
use crate::validate::{has_short_ownership_proof, query_refusal, record_accepted};
use std::time::Instant;

verus! {

/// Counters of the queries a server has seen.
#[derive(Debug, Clone, Copy, PartialEq, Eq, Structural)]
pub struct QueryStats {
    pub total_queries: u64,
    pub cache_hits: u64,
    pub cache_misses: u64,
    pub zk_validations: u64,
}

/// A cached answer and when it stops being served.
#[derive(Debug, Clone)]
pub struct CachedRecord {
    pub record: ZdnsRecord,
    pub expires_at: Timestamp,
    pub access_count: u64,
}

/// One slot of the answer cache.
struct CacheSlot {
    key: String,
    entry: CachedRecord,
}

/// A query that named a client, and when it arrived.
struct ClientCall {
    client: String,
    at: Timestamp,
}

spec fn call_entries(s: Seq<ClientCall>) -> CallLog {
    s.map_values(|x: ClientCall| (x.client@, x.at))
}

/// A name service node.
pub struct ZdnsServer {
    config: ZdnsConfig,
    records: StringHashMap<Vec<ZdnsRecord>>,
    /// Cached answers in the order they were stored, oldest first: a full
    /// cache drops its oldest entries, and storing sweeps out expired ones,
    /// so the cache is kept as a list that can be walked in that order.
    cache: Vec<CacheSlot>,
    query_stats: QueryStats,
    /// Recent queries that named a client, oldest first.
    calls: Vec<ClientCall>,
}

spec fn slot_entries(s: Seq<CacheSlot>) -> CacheEntries {
    s.map_values(|x: CacheSlot| (x.key@, x.entry))
}

fn copy_slot(s: &CacheSlot) -> (c: CacheSlot)
    ensures
        c.key@ == s.key@,
        c.entry == s.entry,
{
    CacheSlot {
        key: s.key.clone(),
        entry: CachedRecord {
            record: copy_record(&s.entry.record),
            expires_at: s.entry.expires_at,
            access_count: s.entry.access_count,
        },
    }
}

/// How `query` is handled by a server that goes from `s0` to `s1` and
/// answers `r`, at time `now`, with `shares` as the split of a charged fee
/// and `hit_ratio` as the hit ratio to report with a cached answer.
///
/// Every query is counted, and one that names a client is logged against
/// it. A client that already made its allowed number of queries in the
/// last minute is refused. A malformed query is refused, and so is one
/// without an authentication proof when proofs are required. Otherwise a live
/// cached answer is served and counted as a hit; failing that the query
/// counts as a miss and is resolved from the store: a missing domain or
/// type is refused, so is an answer with a short ownership proof when
/// proofs are required; else the stored records are returned and, when
/// caching is on, the first one is cached. Settings and records never
/// change.
pub open spec fn query_answered(
    s0: ZdnsServer,
    s1: ZdnsServer,
    query: ZdnsQuery,
    shares: FeeShares,
    hit_ratio: u64,
    now: Timestamp,
    r: Result<ZdnsResponse, ProtocolError>,
) -> bool {
    let st0 = s0.stats_view();
    let st1 = s1.stats_view();
    let cfg = s0.config_view();
    let key = cache_key_text(query.name@, query.record_type);
    &&& s1.config_view() == cfg
    &&& s1.records_view() == s0.records_view()
    &&& st1.total_queries == st0.total_queries + 1
    &&& st1.zk_validations == st0.zk_validations
    &&& s1.call_log() == log_after(s0.call_log(), query, now)
    &&& if rate_limited(s0.call_log(), query, now, cfg.security_config.max_query_rate) {
        &&& r matches Err(e) && e@ == failure(ErrorKind::AccessDenied, "Query rate limit exceeded"@)
        &&& st1.cache_hits == st0.cache_hits
        &&& st1.cache_misses == st0.cache_misses
        &&& s1.cache_entries() == s0.cache_entries()
    } else {
        query_answered_admitted(s0, s1, query, shares, hit_ratio, now, r)
    }
}

/// How an admitted query (one within its client's rate) is handled; see
/// `query_answered`.
pub open spec fn query_answered_admitted(
    s0: ZdnsServer,
    s1: ZdnsServer,
    query: ZdnsQuery,
    shares: FeeShares,
    hit_ratio: u64,
    now: Timestamp,
    r: Result<ZdnsResponse, ProtocolError>,
) -> bool {
    let st0 = s0.stats_view();
    let st1 = s1.stats_view();
    let cfg = s0.config_view();
    let key = cache_key_text(query.name@, query.record_type);
    match query_refusal(query, cfg.security_config.require_zk_proofs) {
        Some(f) => {
            &&& r matches Err(e) && e@ == f
            &&& st1.cache_hits == st0.cache_hits
            &&& st1.cache_misses == st0.cache_misses
            &&& s1.cache_entries() == s0.cache_entries()
        },
        None => match cache_lookup(s0.cache_view(), key, now) {
            Some(rec) => {
                &&& r matches Ok(resp) && cache_hit_response(resp, query, rec, now, cfg.node_id@, hit_ratio)
                &&& st1.cache_hits == st0.cache_hits + 1
                &&& st1.cache_misses == st0.cache_misses
                &&& s1.cache_entries() == s0.cache_entries()
            },
            None => {
                &&& st1.cache_hits == st0.cache_hits
                &&& st1.cache_misses == st0.cache_misses + 1
                &&& match resolve_outcome(s0.records_view(), query.name@, query.record_type) {
                    Err(f) => r matches Err(e) && e@ == f && s1.cache_entries() == s0.cache_entries(),
                    Ok(found) => if cfg.security_config.require_zk_proofs && has_short_ownership_proof(
                        found,
                    ) {
                        &&& r matches Err(e) && e@ == failure(
                            ErrorKind::ZkProofError,
                            "Invalid ownership proof"@,
                        )
                        &&& s1.cache_entries() == s0.cache_entries()
                    } else {
                        &&& r matches Ok(resp) && resolved_response(resp, query, found, now, cfg, shares)
                        &&& s1.cache_entries() == if cfg.cache_config.enabled {
                            cache_after_store(
                                s0.cache_entries(),
                                key,
                                found,
                                now,
                                cfg.cache_config.max_size as nat,
                            )
                        } else {
                            s0.cache_entries()
                        }
                    },
                }
            },
        },
    }
}

fn type_label_text(t: ZdnsRecordType) -> (s: &'static str)
    ensures
        s@ == type_label(t),
{
    match t {
        ZdnsRecordType::A => "A",
        ZdnsRecordType::AAAA => "AAAA",
        ZdnsRecordType::CNAME => "CNAME",
        ZdnsRecordType::MX => "MX",
        ZdnsRecordType::TXT => "TXT",
        ZdnsRecordType::SRV => "SRV",
        ZdnsRecordType::MESH => "MESH",
        ZdnsRecordType::ZK => "ZK",
        ZdnsRecordType::DAO => "DAO",
        ZdnsRecordType::ECON => "ECON",
        ZdnsRecordType::ID => "ID",
        ZdnsRecordType::CONTENT => "CONTENT",
        ZdnsRecordType::MULTISIG => "MULTISIG",
        ZdnsRecordType::PQS => "PQS",
    }
}

/// The cache key of a question for `name` and type `t`.
pub fn cache_key(name: &str, t: ZdnsRecordType) -> (k: String)
    ensures
        k@ == cache_key_text(name@, t),
{
    let mut k = name.to_owned();
    k.append(":");
    k.append(type_label_text(t));
    k
}

/// The fee a query is charged, as an `f64` bit pattern: the one it offers,
/// else 0.01.
pub fn dao_fee_amount(query: &ZdnsQuery) -> (r: u64)
    ensures
        r == query_fee(*query),
{
    match query.dao_fee {
        Some(f) => f,
        None => DEFAULT_QUERY_FEE,
    }
}

fn copy_text_opt(o: &Option<String>) -> (c: Option<String>)
    ensures
        c == *o,
{
    match o {
        Some(t) => Some(t.clone()),
        None => None,
    }
}

/// A copy of `r`, equal to it.
pub fn copy_record(r: &ZdnsRecord) -> (c: ZdnsRecord)
    ensures
        c == *r,
{
    ZdnsRecord {
        name: r.name.clone(),
        record_type: r.record_type,
        value: r.value.clone(),
        ttl: r.ttl,
        ownership_proof: r.ownership_proof.clone(),
        pq_signature: r.pq_signature.clone(),
        dao_fee_proof: r.dao_fee_proof.clone(),
        priority: r.priority,
        weight: r.weight,
        port: r.port,
        target: copy_text_opt(&r.target),
        metadata: ZdnsRecordMetadata {
            created_at: r.metadata.created_at,
            updated_at: r.metadata.updated_at,
            owner_id: r.metadata.owner_id.clone(),
            version: r.metadata.version,
            economic_config: r.metadata.economic_config,
            access_policy: copy_text_opt(&r.metadata.access_policy),
            content_hash: copy_text_opt(&r.metadata.content_hash),
        },
    }
}

fn copy_records(v: &Vec<ZdnsRecord>) -> (c: Vec<ZdnsRecord>)
    ensures
        c@ == v@,
{
    let mut c: Vec<ZdnsRecord> = Vec::new();
    let mut i: usize = 0;
    while i < v.len()
        invariant
            i <= v@.len(),
            c@ == v@.subrange(0, i as int),
        decreases v@.len() - i,
    {
        c.push(copy_record(&v[i]));
        i = i + 1;
        assert(c@ =~= v@.subrange(0, i as int));
    }
    assert(c@ =~= v@);
    c
}

/// The position of the first record of type `t` in `list`.
fn position_of_type(list: &Vec<ZdnsRecord>, t: ZdnsRecordType) -> (r: Option<usize>)
    ensures
        match r {
            Some(i) => first_of_type(list@, t) == Some(i as int),
            None => first_of_type(list@, t) is None,
        },
{
    let mut i: usize = 0;
    while i < list.len()
        invariant
            i <= list@.len(),
            forall|j: int| 0 <= j < i ==> (#[trigger] list@[j]).record_type != t,
        decreases list@.len() - i,
    {
        if list[i].record_type == t {
            proof {
                lemma_first_of_type_is(list@, t, i as int);
            }
            return Some(i);
        }
        i = i + 1;
    }
    proof {
        assert forall|j: int| !is_first_of_type(list@, t, j) by {
            if 0 <= j < list@.len() {
                assert(list@[j].record_type != t);
            }
        }
    }
    None
}

/// The position of the first record of type `t` owned by `owner` in `list`.
fn position_owned(list: &Vec<ZdnsRecord>, t: ZdnsRecordType, owner: &str) -> (r: Option<usize>)
    ensures
        match r {
            Some(i) => first_owned(list@, t, owner@) == Some(i as int),
            None => first_owned(list@, t, owner@) is None,
        },
{
    let mut i: usize = 0;
    while i < list.len()
        invariant
            i <= list@.len(),
            forall|j: int|
                0 <= j < i ==> !((#[trigger] list@[j]).record_type == t
                    && list@[j].metadata.owner_id@ == owner@),
        decreases list@.len() - i,
    {
        if list[i].record_type == t && same_text(list[i].metadata.owner_id.as_str(), owner) {
            proof {
                lemma_first_owned_is(list@, t, owner@, i as int);
            }
            return Some(i);
        }
        i = i + 1;
    }
    proof {
        assert forall|j: int| !is_first_owned(list@, t, owner@, j) by {
            if 0 <= j < list@.len() {
                assert(!(list@[j].record_type == t && list@[j].metadata.owner_id@ == owner@));
            }
        }
    }
    None
}

impl ZdnsServer {
    pub closed spec fn config_view(&self) -> ZdnsConfig {
        self.config
    }

    /// The records stored for each domain name, in the order they were added.
    pub closed spec fn records_view(&self) -> Map<Seq<char>, Seq<ZdnsRecord>> {
        self.records@.map_values(|v: Vec<ZdnsRecord>| v@)
    }

    /// The answer cache: its entries, oldest first.
    pub closed spec fn cache_entries(&self) -> CacheEntries {
        slot_entries(self.cache@)
    }

    /// The answer cache: cache keys (as text) to cached answers.
    pub open spec fn cache_view(&self) -> Map<Seq<char>, CachedRecord> {
        entries_map(self.cache_entries())
    }

    /// Whether this server requires post-quantum signatures on records.
    pub(crate) fn zk_proofs_required(&self) -> (r: bool)
        ensures
            r == self.config_view().security_config.require_zk_proofs,
    {
        self.config.security_config.require_zk_proofs
    }

    pub(crate) fn pq_signatures_required(&self) -> (r: bool)
        ensures
            r == self.config_view().security_config.enable_pq_signatures,
    {
        self.config.security_config.enable_pq_signatures
    }

    /// The queries that named a client and still count against its rate.
    pub closed spec fn call_log(&self) -> CallLog {
        call_entries(self.calls@)
    }

    pub closed spec fn stats_view(&self) -> QueryStats {
        self.query_stats
    }

    /// The server's own consistency: every cached key appears once.
    pub closed spec fn inv(&self) -> bool {
        distinct_keys(self.cache_entries())
    }

    /// A server in a consistent state: its store holds, per domain, at least
    /// one record, only records of that name that passed the registration
    /// checks, and at most one record per type; the cache holds no more
    /// entries than its configured maximum; no more queries were answered
    /// from or past the cache than were received.
    pub open spec fn wf(&self) -> bool {
        &&& self.inv()
        &&& records_well_formed(self.records_view())
        &&& self.cache_entries().len() <= self.config_view().cache_config.max_size
        &&& log_in_clock_range(self.call_log())
        &&& self.stats_view().cache_hits + self.stats_view().cache_misses
            <= self.stats_view().total_queries
    }

    /// A server with the given settings, no records, an empty cache and
    /// zeroed counters.
    pub fn new(config: ZdnsConfig) -> (r: ZdnsServer)
        ensures
            r.wf(),
            r.config_view() == config,
            r.records_view() == Map::<Seq<char>, Seq<ZdnsRecord>>::empty(),
            r.cache_entries() == Seq::<(Seq<char>, CachedRecord)>::empty(),
            r.call_log() == Seq::<(Seq<char>, Timestamp)>::empty(),
            r.stats_view() == (QueryStats {
                total_queries: 0,
                cache_hits: 0,
                cache_misses: 0,
                zk_validations: 0,
            }),
    {
        let r = ZdnsServer {
            config,
            records: StringHashMap::new(),
            cache: Vec::new(),
            query_stats: QueryStats { total_queries: 0, cache_hits: 0, cache_misses: 0, zk_validations: 0 },
            calls: Vec::new(),
        };
        assert(r.call_log() =~= Seq::<(Seq<char>, Timestamp)>::empty());
        assert(r.records_view() =~= Map::<Seq<char>, Seq<ZdnsRecord>>::empty());
        assert(r.cache_entries() =~= Seq::<(Seq<char>, CachedRecord)>::empty());
        r
    }

    pub fn get_stats(&self) -> (r: QueryStats)
        ensures
            r == self.stats_view(),
    {
        self.query_stats
    }

    /// Stores `record` under its domain name after the registration checks,
    /// replacing the domain's record of the same type if it has one.
    pub fn register_record(&mut self, record: ZdnsRecord) -> (r: Result<(), ProtocolError>)
        requires
            old(self).wf(),
        ensures
            final(self).wf(),
            final(self).config_view() == old(self).config_view(),
            final(self).stats_view() == old(self).stats_view(),
            final(self).cache_entries() == old(self).cache_entries(),
            final(self).call_log() == old(self).call_log(),
            match register_outcome(
                old(self).records_view(),
                record,
                old(self).config_view().security_config.enable_pq_signatures,
            ) {
                Ok(m) => r is Ok && final(self).records_view() == m,
                Err(f) => r matches Err(e) && e@ == f && final(self).records_view()
                    == old(self).records_view(),
            },
    {
        self.validate_registration(&record)?;
        let name = record.name.clone();
        let ghost k = record.name@;
        let ghost m0 = self.records_view();
        let ghost expected = if m0.contains_key(k) {
            with_record(m0[k], record)
        } else {
            seq![record]
        };
        let list = match self.records.get(name.as_str()) {
            Some(v) => {
                let mut l = copy_records(v);
                let ghost l0 = l@;
                match position_of_type(&l, record.record_type) {
                    Some(i) => {
                        l.set(i, record);
                    },
                    None => {
                        l.push(record);
                    },
                }
                assert(l@ == with_record(l0, record));
                proof {
                    self.lemma_with_record_well_formed(k, l0, record);
                }
                l
            },
            None => {
                let l = vec![record];
                assert(domain_well_formed(k, l@));
                assert(l@ =~= expected);
                l
            },
        };
        assert(list@ == expected);
        let ghost raw0 = self.records@;
        self.records.insert(name, list);
        assert(self.records_view() =~= m0.insert(k, expected));
        assert(register_outcome(m0, record, self.config.security_config.enable_pq_signatures)
            == Ok::<_, crate::types::Failure>(m0.insert(k, expected)));
        proof {
            self.lemma_insert_keeps_well_formed(m0, k);
        }
        Ok(())
    }

    /// Replaces the stored record of `record`'s domain and type with
    /// `record`, when that record exists and has the same owner and
    /// `record` passes the registration checks.
    pub fn update_record(&mut self, record: ZdnsRecord) -> (r: Result<(), ProtocolError>)
        requires
            old(self).wf(),
        ensures
            final(self).wf(),
            final(self).config_view() == old(self).config_view(),
            final(self).stats_view() == old(self).stats_view(),
            final(self).cache_entries() == old(self).cache_entries(),
            final(self).call_log() == old(self).call_log(),
            match update_outcome(
                old(self).records_view(),
                record,
                old(self).config_view().security_config.enable_pq_signatures,
            ) {
                Ok(m) => r is Ok && final(self).records_view() == m,
                Err(f) => r matches Err(e) && e@ == f && final(self).records_view()
                    == old(self).records_view(),
            },
    {
        let ghost k = record.name@;
        let ghost m0 = self.records_view();
        let (pos, mut list) = match self.records.get(record.name.as_str()) {
            None => {
                return Err(ProtocolError::InvalidRequest("Domain not found".to_owned()));
            },
            Some(v) => match position_of_type(v, record.record_type) {
                None => {
                    return Err(ProtocolError::InvalidRequest("Record not found".to_owned()));
                },
                Some(i) => {
                    if !(v[i].metadata.owner_id == record.metadata.owner_id) {
                        return Err(ProtocolError::AccessDenied("Ownership mismatch".to_owned()));
                    }
                    (i, copy_records(v))
                },
            },
        };
        self.validate_registration(&record)?;
        let name = record.name.clone();
        let ghost l0 = list@;
        list.set(pos, record);
        proof {
            assert(first_of_type(l0, record.record_type) == Some(pos as int));
            let j = choose|j: int| is_first_of_type(l0, record.record_type, j);
            assert(is_first_of_type(l0, record.record_type, j));
            assert forall|a: int, b: int| 0 <= a < b < list@.len() implies (#[trigger] list@[a]).record_type
                != (#[trigger] list@[b]).record_type by {
                if a == pos {
                    assert(l0[b].record_type != l0[a].record_type);
                } else if b == pos {
                    assert(l0[a].record_type != l0[b].record_type);
                } else {
                    assert(l0[a].record_type != l0[b].record_type);
                }
            }
            assert(domain_well_formed(k, list@));
        }
        self.records.insert(name, list);
        assert(self.records_view() =~= m0.insert(k, m0[k].update(pos as int, record)));
        proof {
            self.lemma_insert_keeps_well_formed(m0, k);
        }
        Ok(())
    }

    /// Removes the record of type `record_type` that `owner_id` owns under
    /// `name`; a domain left without records is dropped.
    pub fn delete_record(&mut self, name: &str, record_type: &ZdnsRecordType, owner_id: &str) -> (r:
        Result<(), ProtocolError>)
        requires
            old(self).wf(),
        ensures
            final(self).wf(),
            final(self).config_view() == old(self).config_view(),
            final(self).stats_view() == old(self).stats_view(),
            final(self).cache_entries() == old(self).cache_entries(),
            final(self).call_log() == old(self).call_log(),
            match delete_outcome(old(self).records_view(), name@, *record_type, owner_id@) {
                Ok(m) => r is Ok && final(self).records_view() == m,
                Err(f) => r matches Err(e) && e@ == f && final(self).records_view()
                    == old(self).records_view(),
            },
    {
        let ghost k = name@;
        let ghost m0 = self.records_view();
        let mut list = match self.records.get(name) {
            None => {
                return Err(ProtocolError::InvalidRequest("Domain not found".to_owned()));
            },
            Some(v) => copy_records(v),
        };
        let pos = match position_owned(&list, *record_type, owner_id) {
            None => {
                return Err(
                    ProtocolError::AccessDenied("Record not found or access denied".to_owned()),
                );
            },
            Some(i) => i,
        };
        let ghost l0 = list@;
        list.remove(pos);
        if list.len() == 0 {
            self.records.remove(name);
            assert(self.records_view() =~= m0.remove(k));
            assert forall|k2: Seq<char>| #[trigger] self.records_view().contains_key(k2) implies domain_well_formed(
                k2,
                self.records_view()[k2],
            ) by {
                assert(m0.contains_key(k2));
            }
        } else {
            proof {
                assert(domain_well_formed(k, m0[k]));
                assert forall|a: int| 0 <= a < list@.len() implies (#[trigger] list@[a]).name@ == k
                    && record_accepted(list@[a]) by {
                    if a < pos {
                        assert(list@[a] == l0[a]);
                    } else {
                        assert(list@[a] == l0[a + 1]);
                    }
                }
                assert forall|a: int, b: int| 0 <= a < b < list@.len() implies (#[trigger] list@[a]).record_type
                    != (#[trigger] list@[b]).record_type by {
                    let a0 = if a < pos { a } else { a + 1 };
                    let b0 = if b < pos { b } else { b + 1 };
                    assert(list@[a] == l0[a0]);
                    assert(list@[b] == l0[b0]);
                    assert(l0[a0].record_type != l0[b0].record_type);
                }
            }
            self.records.insert(name.to_owned(), list);
            assert(self.records_view() =~= m0.insert(k, l0.remove(pos as int)));
            proof {
                self.lemma_insert_keeps_well_formed(m0, k);
            }
        }
        Ok(())
    }

    /// The records of type `record_type` stored under `name`, in order.
    pub fn resolve_records(&self, name: &str, record_type: &ZdnsRecordType) -> (r: Result<
        Vec<ZdnsRecord>,
        ProtocolError,
    >)
        ensures
            match resolve_outcome(self.records_view(), name@, *record_type) {
                Ok(found) => r matches Ok(v) && v@ == found,
                Err(f) => r matches Err(e) && e@ == f,
            },
    {
        match self.records.get(name) {
            None => Err(ProtocolError::InvalidRequest("Domain not found".to_owned())),
            Some(list) => {
                let t = *record_type;
                let mut found: Vec<ZdnsRecord> = Vec::new();
                let mut i: usize = 0;
                while i < list.len()
                    invariant
                        i <= list@.len(),
                        found@ == list@.take(i as int).filter(has_type(t)),
                    decreases list@.len() - i,
                {
                    proof {
                        reveal_with_fuel(Seq::<_>::filter, 1);
                        assert(list@.take(i + 1).drop_last() =~= list@.take(i as int));
                    }
                    if list[i].record_type == t {
                        found.push(copy_record(&list[i]));
                    }
                    i = i + 1;
                }
                assert(list@.take(list@.len() as int) =~= list@);
                if found.len() == 0 {
                    Err(ProtocolError::InvalidRequest("No records found".to_owned()))
                } else {
                    Ok(found)
                }
            },
        }
    }

    /// The answer cached under `cache_key`, unless it has expired by `now`.
    pub fn check_cache(&self, cache_key: &str, now: Timestamp) -> (r: Option<ZdnsRecord>)
        requires
            self.wf(),
        ensures
            r == cache_lookup(self.cache_view(), cache_key@, now),
    {
        let ghost es = self.cache_entries();
        let mut i: usize = 0;
        while i < self.cache.len()
            invariant
                self.wf(),
                es == self.cache_entries(),
                es.len() == self.cache@.len(),
                i <= self.cache@.len(),
                forall|j: int| 0 <= j < i ==> (#[trigger] es[j]).0 != cache_key@,
            decreases self.cache@.len() - i,
        {
            let slot = &self.cache[i];
            assert(es[i as int] == (slot.key@, slot.entry));
            if same_text(slot.key.as_str(), cache_key) {
                proof {
                    lemma_entries_lookup(es, i as int);
                }
                if slot.entry.expires_at.is_later_than(&now) {
                    return Some(copy_record(&slot.entry.record));
                }
                return None;
            }
            i = i + 1;
        }
        proof {
            lemma_entries_absent(es, cache_key@);
        }
        None
    }

    /// Caches the first of `records` under `cache_key` for its TTL from
    /// `now` as the newest entry, drops every entry that has expired by
    /// `now`, then drops the oldest entries until no more than the
    /// configured maximum remain.
    pub fn cache_records(&mut self, cache_key: &str, records: &[ZdnsRecord], now: Timestamp)
        requires
            old(self).wf(),
            now.in_clock_range(),
        ensures
            final(self).wf(),
            final(self).config_view() == old(self).config_view(),
            final(self).stats_view() == old(self).stats_view(),
            final(self).records_view() == old(self).records_view(),
            final(self).call_log() == old(self).call_log(),
            final(self).cache_entries() == cache_after_store(
                old(self).cache_entries(),
                cache_key@,
                records@,
                now,
                old(self).config_view().cache_config.max_size as nat,
            ),
    {
        if records.len() == 0 {
            return;
        }
        let record = copy_record(&records[0]);
        let expires_at = now.plus_seconds(record.ttl);
        let entry = CachedRecord { record, expires_at, access_count: 1 };
        assert(entry == new_cache_entry(records@, now));
        let ghost key = cache_key@;
        let ghost old_slots = self.cache@;
        let ghost old_e = self.cache_entries();
        let ghost p = keeps_entry(key, now);
        let mut kept: Vec<CacheSlot> = Vec::new();
        let mut i: usize = 0;
        assert(old_e.take(0).filter(p) =~= Seq::<(Seq<char>, CachedRecord)>::empty()) by {
            reveal_with_fuel(Seq::filter, 1);
        }
        assert(slot_entries(kept@) =~= Seq::<(Seq<char>, CachedRecord)>::empty());
        while i < self.cache.len()
            invariant
                self.cache@ == old_slots,
                key == cache_key@,
                p == keeps_entry(key, now),
                old_e == slot_entries(old_slots),
                distinct_keys(old_e),
                i <= old_slots.len(),
                slot_entries(kept@) == old_e.take(i as int).filter(p),
                distinct_keys(slot_entries(kept@)),
            decreases old_slots.len() - i,
        {
            let slot = &self.cache[i];
            let ghost e = old_e[i as int];
            assert(e == (slot.key@, slot.entry));
            proof {
                reveal_with_fuel(Seq::filter, 1);
                assert(old_e.take(i + 1).drop_last() =~= old_e.take(i as int));
                assert(old_e.take(i + 1).last() == e);
            }
            let ghost k0 = kept@;
            let keep = !same_text(slot.key.as_str(), cache_key) && slot.entry.expires_at.is_later_than(&now);
            assert(keep == p(e));
            if keep {
                let c = copy_slot(slot);
                proof {
                    let ke = slot_entries(k0);
                    assert forall|j: int| 0 <= j < ke.len() implies (#[trigger] ke[j]).0 != e.0 by {
                        assert(ke.contains(ke[j]));
                        old_e.take(i as int).lemma_filter_contains_rev(p, ke[j]);
                        let m = choose|m: int| 0 <= m < i && old_e.take(i as int)[m] == ke[j];
                        assert(old_e[m] == ke[j]);
                        assert(old_e[m].0 != old_e[i as int].0);
                    }
                }
                kept.push(c);
                proof {
                    assert(slot_entries(kept@) =~= slot_entries(k0).push(e));
                    let ke = slot_entries(kept@);
                    assert forall|a: int, b: int| 0 <= a < b < ke.len() implies (#[trigger] ke[a]).0
                        != (#[trigger] ke[b]).0 by {
                        assert(ke[a] == slot_entries(k0)[a]);
                        if b < ke.len() - 1 {
                            assert(ke[b] == slot_entries(k0)[b]);
                        }
                    }
                }
            }
            i = i + 1;
        }
        assert(old_e.take(old_e.len() as int) =~= old_e);
        let ghost kept_e = slot_entries(kept@);
        let live = entry.expires_at.is_later_than(&now);
        if live {
            proof {
                assert forall|j: int| 0 <= j < kept_e.len() implies (#[trigger] kept_e[j]).0 != key by {
                    old_e.lemma_filter_pred(p, j);
                }
            }
            let ghost k0 = kept@;
            kept.push(CacheSlot { key: cache_key.to_owned(), entry });
            proof {
                assert(slot_entries(kept@) =~= kept_e.push((key, entry)));
                let ke = slot_entries(kept@);
                assert forall|a: int, b: int| 0 <= a < b < ke.len() implies (#[trigger] ke[a]).0
                    != (#[trigger] ke[b]).0 by {
                    assert(ke[a] == kept_e[a]);
                    if b < ke.len() - 1 {
                        assert(ke[b] == kept_e[b]);
                    }
                }
            }
        }
        let ghost all = slot_entries(kept@);
        let max = self.config.cache_config.max_size;
        let n = kept.len();
        if n > max {
            let newest_slots = kept.split_off(n - max);
            proof {
                assert(slot_entries(newest_slots@) =~= all.skip(n - max));
                let ke = slot_entries(newest_slots@);
                assert forall|a: int, b: int| 0 <= a < b < ke.len() implies (#[trigger] ke[a]).0
                    != (#[trigger] ke[b]).0 by {
                    assert(ke[a] == all[a + n - max]);
                    assert(ke[b] == all[b + n - max]);
                }
            }
            self.cache = newest_slots;
        } else {
            self.cache = kept;
        }
        assert(self.cache_entries() =~= newest(all, max as nat));
    }

    /// The answer to `query` served from the cache with `cached_record`, at
    /// `now`, reporting `hit_ratio` (the bit pattern of the cache hit ratio).
    pub fn create_response_from_cache(
        &self,
        query: ZdnsQuery,
        cached_record: ZdnsRecord,
        now: Timestamp,
        hit_ratio: u64,
    ) -> (r: ZdnsResponse)
        requires
            now.in_clock_range(),
        ensures
            cache_hit_response(r, query, cached_record, now, self.config_view().node_id@, hit_ratio),
    {
        let id = query.id;
        let rd = query.recursion_desired;
        ZdnsResponse {
            id,
            flags: ZdnsFlags {
                qr: true,
                opcode: 0,
                aa: false,
                tc: false,
                rd,
                ra: true,
                zk: false,
                dao: false,
                rcode: 0,
            },
            questions: vec![query],
            answers: vec![cached_record],
            authority: Vec::new(),
            additional: Vec::new(),
            metadata: ZdnsResponseMetadata {
                timestamp: now,
                processing_time_ms: CACHED_PROCESSING_TIME_MS,
                server_node_id: self.config.node_id.clone(),
                economic_details: None,
                cache_info: Some(
                    CacheInfo {
                        cached: true,
                        hit_ratio,
                        expires_at: now.plus_seconds(CACHED_ANSWER_LIFETIME_SECS),
                        cache_nodes: vec![self.config.node_id.clone()],
                    },
                ),
            },
        }
    }

    /// Handles `query` at `now`, timing it from `started`. `shares` is the
    /// split of the query's fee (see `dao_fee_amount`), charged on a resolved
    /// answer when fees are required; `hit_ratio` is the bit pattern of the
    /// hit ratio reported if the answer comes from the cache, the hits over
    /// the hits and misses counting this query.
    pub fn process_query_at(
        &mut self,
        query: ZdnsQuery,
        shares: FeeShares,
        hit_ratio: u64,
        now: Timestamp,
        started: &Instant,
    ) -> (r: Result<ZdnsResponse, ProtocolError>)
        requires
            old(self).wf(),
            old(self).stats_view().total_queries < u64::MAX,
            now.in_clock_range(),
        ensures
            final(self).wf(),
            query_answered(*old(self), *final(self), query, shares, hit_ratio, now, r),
    {
        self.query_stats.total_queries = self.query_stats.total_queries + 1;
        if self.admit_call(&query, now) {
            return Err(ProtocolError::AccessDenied("Query rate limit exceeded".to_owned()));
        }
        self.validate_query(&query)?;
        self.validate_query_proof(&query)?;
        let key = cache_key(query.name.as_str(), query.record_type);
        match self.check_cache(key.as_str(), now) {
            Some(cached) => {
                self.query_stats.cache_hits = self.query_stats.cache_hits + 1;
                return Ok(self.create_response_from_cache(query, cached, now, hit_ratio));
            },
            None => {},
        }
        self.query_stats.cache_misses = self.query_stats.cache_misses + 1;
        let records = self.resolve_records(query.name.as_str(), &query.record_type)?;
        if self.config.security_config.require_zk_proofs {
            self.validate_zk_proofs(records.as_slice())?;
        }
        let economic_details = if self.config.security_config.require_dao_fees {
            Some(self.process_dao_fee(&query, shares))
        } else {
            None
        };
        if self.config.cache_config.enabled {
            self.cache_records(key.as_str(), records.as_slice(), now);
        }
        let processing_time = millis_since(started);
        let id = query.id;
        let rd = query.recursion_desired;
        Ok(
            ZdnsResponse {
                id,
                flags: ZdnsFlags {
                    qr: true,
                    opcode: 0,
                    aa: true,
                    tc: false,
                    rd,
                    ra: true,
                    zk: self.config.security_config.require_zk_proofs,
                    dao: self.config.security_config.require_dao_fees,
                    rcode: 0,
                },
                questions: vec![query],
                answers: records,
                authority: Vec::new(),
                additional: Vec::new(),
                metadata: ZdnsResponseMetadata {
                    timestamp: now,
                    processing_time_ms: processing_time,
                    server_node_id: self.config.node_id.clone(),
                    economic_details,
                    cache_info: None,
                },
            },
        )
    }

    /// Handles `query` at the current time; `shares` and `hit_ratio` are as
    /// for `process_query_at`. When the system clock cannot be read (it is
    /// before the Unix epoch or past the end of the calendar) the query is
    /// refused and the server is left as it was.
    pub fn process_query(&mut self, query: ZdnsQuery, shares: FeeShares, hit_ratio: u64) -> (r: Result<
        ZdnsResponse,
        ProtocolError,
    >)
        requires
            old(self).wf(),
            old(self).stats_view().total_queries < u64::MAX,
        ensures
            final(self).wf(),
            (exists|now: Timestamp|
                now.in_clock_range() && query_answered(*old(self), *final(self), query, shares, hit_ratio, now, r))
                || (r matches Err(e) && e@ == failure(ErrorKind::InternalError, "System clock unavailable"@)
                && *final(self) == *old(self)),
    {
        let started = start_timer();
        match utc_now() {
            Some(now) => {
                let r = self.process_query_at(query, shares, hit_ratio, now, &started);
                assert(query_answered(*old(self), *self, query, shares, hit_ratio, now, r));
                r
            },
            None => Err(ProtocolError::InternalError("System clock unavailable".to_owned())),
        }
    }

    /// Notes a query arriving at `now` against the client it names, after
    /// forgetting the queries that no longer count; answers whether that
    /// client had already reached its allowed rate.
    pub fn admit_call(&mut self, query: &ZdnsQuery, now: Timestamp) -> (limited: bool)
        requires
            old(self).wf(),
            now.in_clock_range(),
        ensures
            final(self).wf(),
            limited == rate_limited(
                old(self).call_log(),
                *query,
                now,
                old(self).config_view().security_config.max_query_rate,
            ),
            final(self).call_log() == log_after(old(self).call_log(), *query, now),
            final(self).config_view() == old(self).config_view(),
            final(self).records_view() == old(self).records_view(),
            final(self).cache_entries() == old(self).cache_entries(),
            final(self).stats_view() == old(self).stats_view(),
    {
        let ghost log = self.call_log();
        let who: &str = match &query.client_id {
            Some(c) => c.as_str(),
            None => "",
        };
        let ghost pc = recent_call_by(who@, now);
        let ghost pn = still_counts(now);
        let mut kept: Vec<ClientCall> = Vec::new();
        let mut count: usize = 0;
        let mut i: usize = 0;
        proof {
            reveal_with_fuel(Seq::filter, 1);
            assert(log.take(0) =~= Seq::<(Seq<char>, Timestamp)>::empty());
        }
        assert(call_entries(kept@) =~= Seq::<(Seq<char>, Timestamp)>::empty());
        while i < self.calls.len()
            invariant
                log == call_entries(self.calls@),
                forall|j: int| 0 <= j < log.len() ==> (#[trigger] log[j]).1.in_clock_range(),
                pc == recent_call_by(who@, now),
                pn == still_counts(now),
                i <= log.len(),
                count <= i,
                count == log.take(i as int).filter(pc).len(),
                call_entries(kept@) == log.take(i as int).filter(pn),
                forall|j: int| 0 <= j < kept@.len() ==> (#[trigger] call_entries(kept@)[j]).1.in_clock_range(),
            decreases log.len() - i,
        {
            let call = &self.calls[i];
            let ghost e = log[i as int];
            assert(e == (call.client@, call.at));
            proof {
                reveal_with_fuel(Seq::filter, 1);
                assert(log.take(i + 1).drop_last() =~= log.take(i as int));
                assert(log.take(i + 1).last() == e);
            }
            let counts = call.at.plus_seconds(RATE_WINDOW_SECS).is_later_than(&now);
            assert(counts == counts_at(e.1, now));
            if counts && same_text(call.client.as_str(), who) {
                count = count + 1;
            }
            if counts {
                let ghost k0 = kept@;
                kept.push(ClientCall { client: call.client.clone(), at: call.at });
                assert(call_entries(kept@) =~= call_entries(k0).push(e));
            }
            i = i + 1;
        }
        assert(log.take(log.len() as int) =~= log);
        let limited = match &query.client_id {
            Some(_) => count >= self.config.security_config.max_query_rate as usize,
            None => false,
        };
        match &query.client_id {
            Some(c) => {
                let ghost k0 = kept@;
                kept.push(ClientCall { client: c.clone(), at: now });
                assert(call_entries(kept@) =~= call_entries(k0).push((c@, now)));
            },
            None => {},
        }
        self.calls = kept;
        limited
    }

    /// The charge for `query`: a fresh `zdns_` transaction identifier, the
    /// fee the query offers (0.01 when it offers none), the given shares,
    /// and the hosting share paid to this node.
    pub fn process_dao_fee(&self, query: &ZdnsQuery, shares: FeeShares) -> (t: EconomicTransaction)
        ensures
            fee_transaction(t, *query, shares, self.config_view().node_id@),
    {
        let hosting_rewards = vec![(self.config.node_id.clone(), shares.hosting_reward)];
        EconomicTransaction {
            tx_id: new_zdns_id(),
            dao_fee_paid: dao_fee_amount(query),
            ubi_contribution: shares.ubi_contribution,
            owner_payment: shares.owner_payment,
            network_fee: shares.network_fee,
            hosting_rewards,
        }
    }

    proof fn lemma_with_record_well_formed(&self, k: Seq<char>, list: Seq<ZdnsRecord>, r: ZdnsRecord)
        requires
            domain_well_formed(k, list),
            r.name@ == k,
            record_accepted(r),
        ensures
            domain_well_formed(k, with_record(list, r)),
    {
        let l2 = with_record(list, r);
        match first_of_type(list, r.record_type) {
            Some(i) => {
                let j = choose|j: int| is_first_of_type(list, r.record_type, j);
                assert(is_first_of_type(list, r.record_type, j));
                assert(l2 == list.update(j, r));
                assert forall|a: int, b: int| 0 <= a < b < l2.len() implies (#[trigger] l2[a]).record_type
                    != (#[trigger] l2[b]).record_type by {
                    if a == j {
                        assert(list[b].record_type != list[j].record_type);
                    } else if b == j {
                        assert(list[a].record_type != list[j].record_type);
                    } else {
                        assert(list[a].record_type != list[b].record_type);
                    }
                }
            },
            None => {
                assert forall|a: int, b: int| 0 <= a < b < l2.len() implies (#[trigger] l2[a]).record_type
                    != (#[trigger] l2[b]).record_type by {
                    if b == list.len() {
                        if list[a].record_type == r.record_type {
                            assert(!is_first_of_type(list, r.record_type, a));
                            lemma_type_present_has_first(list, r.record_type, a);
                        }
                    } else {
                        assert(list[a].record_type != list[b].record_type);
                    }
                }
            },
        }
    }

    proof fn lemma_insert_keeps_well_formed(&self, m0: Map<Seq<char>, Seq<ZdnsRecord>>, k: Seq<char>)
        requires
            records_well_formed(m0),
            self.records_view().dom() == m0.dom().insert(k),
            forall|k2: Seq<char>| k2 != k && #[trigger] m0.contains_key(k2) ==> self.records_view()[k2] == m0[k2],
            domain_well_formed(k, self.records_view()[k]),
        ensures
            records_well_formed(self.records_view()),
    {
        assert forall|k2: Seq<char>| #[trigger] self.records_view().contains_key(k2) implies domain_well_formed(
            k2,
            self.records_view()[k2],
        ) by {
            if k2 != k {
                assert(m0.contains_key(k2));
            }
        }
    }
}

} // verus!
