//! What the record operations do, stated over the map from domain names to
//! their records.
use vstd::prelude::*;

use crate::ambient::is_zdns_id;
use crate::server::CachedRecord;
use crate::types::{
    failure, EconomicTransaction, ErrorKind, FeeShares, Failure, Timestamp, ZdnsConfig, ZdnsFlags, ZdnsQuery,
    ZdnsRecord, ZdnsRecordType, ZdnsResponse,
};
use crate::validate::{admission_rejection, record_accepted};

verus! {

/// Domain names (as text) to the records stored for them, in order.
pub type RecordMap = Map<Seq<char>, Seq<ZdnsRecord>>;

/// `i` is the first position in `list` of a record of type `t`.
pub open spec fn is_first_of_type(list: Seq<ZdnsRecord>, t: ZdnsRecordType, i: int) -> bool {
    &&& 0 <= i < list.len()
    &&& list[i].record_type == t
    &&& forall|j: int| 0 <= j < i ==> (#[trigger] list[j]).record_type != t
}

/// The first position in `list` of a record of type `t`, if any.
pub open spec fn first_of_type(list: Seq<ZdnsRecord>, t: ZdnsRecordType) -> Option<int> {
    if exists|i: int| is_first_of_type(list, t, i) {
        Some(choose|i: int| is_first_of_type(list, t, i))
    } else {
        None
    }
}

/// `i` is the first position in `list` of a record of type `t` owned by `owner`.
pub open spec fn is_first_owned(
    list: Seq<ZdnsRecord>,
    t: ZdnsRecordType,
    owner: Seq<char>,
    i: int,
) -> bool {
    &&& 0 <= i < list.len()
    &&& list[i].record_type == t
    &&& list[i].metadata.owner_id@ == owner
    &&& forall|j: int|
        0 <= j < i ==> !((#[trigger] list[j]).record_type == t && list[j].metadata.owner_id@ == owner)
}

/// The first position in `list` of a record of type `t` owned by `owner`, if any.
pub open spec fn first_owned(list: Seq<ZdnsRecord>, t: ZdnsRecordType, owner: Seq<char>) -> Option<int> {
    if exists|i: int| is_first_owned(list, t, owner, i) {
        Some(choose|i: int| is_first_owned(list, t, owner, i))
    } else {
        None
    }
}

pub(crate) proof fn lemma_first_of_type_is(list: Seq<ZdnsRecord>, t: ZdnsRecordType, i: int)
    requires
        is_first_of_type(list, t, i),
    ensures
        first_of_type(list, t) == Some(i),
{
    let j = choose|j: int| is_first_of_type(list, t, j);
    assert(is_first_of_type(list, t, j));
    if j < i {
        assert(list[j].record_type != t);
    }
    if i < j {
        assert(list[i].record_type != t);
    }
}

pub(crate) proof fn lemma_first_owned_is(list: Seq<ZdnsRecord>, t: ZdnsRecordType, owner: Seq<char>, i: int)
    requires
        is_first_owned(list, t, owner, i),
    ensures
        first_owned(list, t, owner) == Some(i),
{
    let j = choose|j: int| is_first_owned(list, t, owner, j);
    assert(is_first_owned(list, t, owner, j));
    if j < i {
        assert(!(list[j].record_type == t && list[j].metadata.owner_id@ == owner));
    }
    if i < j {
        assert(!(list[i].record_type == t && list[i].metadata.owner_id@ == owner));
    }
}

/// A record of type `t` at `a` means a first such position exists.
pub(crate) proof fn lemma_type_present_has_first(list: Seq<ZdnsRecord>, t: ZdnsRecordType, a: int)
    requires
        0 <= a < list.len(),
        list[a].record_type == t,
    ensures
        first_of_type(list, t) is Some,
    decreases a,
{
    if !is_first_of_type(list, t, a) {
        let c = choose|c: int| 0 <= c < a && (#[trigger] list[c]).record_type == t;
        lemma_type_present_has_first(list, t, c);
    }
}

/// `list` with `r` in place of its first record of the same type, or with
/// `r` added at the end when it has none.
pub open spec fn with_record(list: Seq<ZdnsRecord>, r: ZdnsRecord) -> Seq<ZdnsRecord> {
    match first_of_type(list, r.record_type) {
        Some(i) => list.update(i, r),
        None => list.push(r),
    }
}

/// The store after `r` is put under its domain name.
pub open spec fn stored(m: RecordMap, r: ZdnsRecord) -> RecordMap {
    let k = r.name@;
    if m.contains_key(k) {
        m.insert(k, with_record(m[k], r))
    } else {
        m.insert(k, seq![r])
    }
}

/// Registering `r`: refused for the first failed check, else stored.
pub open spec fn register_outcome(m: RecordMap, r: ZdnsRecord, pq_required: bool) -> Result<
    RecordMap,
    Failure,
> {
    match admission_rejection(r, pq_required) {
        Some(f) => Err(f),
        None => Ok(stored(m, r)),
    }
}

/// Updating with `r`: the domain and a record of its type must exist and the
/// stored record must have the same owner; then `r` passes the checks of a
/// registration and takes that record's place.
pub open spec fn update_outcome(m: RecordMap, r: ZdnsRecord, pq_required: bool) -> Result<
    RecordMap,
    Failure,
> {
    let k = r.name@;
    if !m.contains_key(k) {
        Err(failure(ErrorKind::InvalidRequest, "Domain not found"@))
    } else {
        match first_of_type(m[k], r.record_type) {
            None => Err(failure(ErrorKind::InvalidRequest, "Record not found"@)),
            Some(i) => if m[k][i].metadata.owner_id@ != r.metadata.owner_id@ {
                Err(failure(ErrorKind::AccessDenied, "Ownership mismatch"@))
            } else {
                match admission_rejection(r, pq_required) {
                    Some(f) => Err(f),
                    None => Ok(m.insert(k, m[k].update(i, r))),
                }
            },
        }
    }
}

/// Deleting the record of type `t` that `owner` owns under `name`; a domain
/// left without records is dropped.
pub open spec fn delete_outcome(
    m: RecordMap,
    name: Seq<char>,
    t: ZdnsRecordType,
    owner: Seq<char>,
) -> Result<RecordMap, Failure> {
    if !m.contains_key(name) {
        Err(failure(ErrorKind::InvalidRequest, "Domain not found"@))
    } else {
        match first_owned(m[name], t, owner) {
            None => Err(failure(ErrorKind::AccessDenied, "Record not found or access denied"@)),
            Some(i) => {
                let rest = m[name].remove(i);
                if rest.len() == 0 {
                    Ok(m.remove(name))
                } else {
                    Ok(m.insert(name, rest))
                }
            },
        }
    }
}

pub open spec fn has_type(t: ZdnsRecordType) -> spec_fn(ZdnsRecord) -> bool {
    |r: ZdnsRecord| r.record_type == t
}

/// Resolving `name` for type `t`: its records of that type, in order.
pub open spec fn resolve_outcome(m: RecordMap, name: Seq<char>, t: ZdnsRecordType) -> Result<
    Seq<ZdnsRecord>,
    Failure,
> {
    if !m.contains_key(name) {
        Err(failure(ErrorKind::InvalidRequest, "Domain not found"@))
    } else {
        let found = m[name].filter(has_type(t));
        if found.len() == 0 {
            Err(failure(ErrorKind::InvalidRequest, "No records found"@))
        } else {
            Ok(found)
        }
    }
}

/// The records of one domain: at least one, all under that name, all
/// passing the checks of a registration, and no two of the same type.
pub open spec fn domain_well_formed(k: Seq<char>, list: Seq<ZdnsRecord>) -> bool {
    &&& list.len() > 0
    &&& forall|i: int| 0 <= i < list.len() ==> (#[trigger] list[i]).name@ == k
    &&& forall|i: int| 0 <= i < list.len() ==> record_accepted(#[trigger] list[i])
    &&& forall|i: int, j: int|
        0 <= i < j < list.len() ==> (#[trigger] list[i]).record_type != (#[trigger] list[j]).record_type
}

pub open spec fn records_well_formed(m: RecordMap) -> bool {
    forall|k: Seq<char>| #[trigger] m.contains_key(k) ==> domain_well_formed(k, m[k])
}

} // verus!

verus! {

/// The name a record type has in cache keys.
pub open spec fn type_label(t: ZdnsRecordType) -> Seq<char> {
    match t {
        ZdnsRecordType::A => "A"@,
        ZdnsRecordType::AAAA => "AAAA"@,
        ZdnsRecordType::CNAME => "CNAME"@,
        ZdnsRecordType::MX => "MX"@,
        ZdnsRecordType::TXT => "TXT"@,
        ZdnsRecordType::SRV => "SRV"@,
        ZdnsRecordType::MESH => "MESH"@,
        ZdnsRecordType::ZK => "ZK"@,
        ZdnsRecordType::DAO => "DAO"@,
        ZdnsRecordType::ECON => "ECON"@,
        ZdnsRecordType::ID => "ID"@,
        ZdnsRecordType::CONTENT => "CONTENT"@,
        ZdnsRecordType::MULTISIG => "MULTISIG"@,
        ZdnsRecordType::PQS => "PQS"@,
    }
}

/// The cache key of a question: the name, a colon, and the type's label.
pub open spec fn cache_key_text(name: Seq<char>, t: ZdnsRecordType) -> Seq<char> {
    name + ":"@ + type_label(t)
}

/// The cache's entries, oldest first: a key and its cached answer.
pub type CacheEntries = Seq<(Seq<char>, CachedRecord)>;

/// The entries as a map from key to answer; a later entry wins.
pub open spec fn entries_map(s: CacheEntries) -> Map<Seq<char>, CachedRecord>
    decreases s.len(),
{
    if s.len() == 0 {
        Map::empty()
    } else {
        entries_map(s.drop_last()).insert(s.last().0, s.last().1)
    }
}

/// No key appears twice among the entries.
pub open spec fn distinct_keys(s: CacheEntries) -> bool {
    forall|i: int, j: int| 0 <= i < j < s.len() ==> (#[trigger] s[i]).0 != (#[trigger] s[j]).0
}

pub(crate) proof fn lemma_entries_lookup(s: CacheEntries, i: int)
    requires
        0 <= i < s.len(),
        distinct_keys(s),
    ensures
        entries_map(s).contains_key(s[i].0),
        entries_map(s)[s[i].0] == s[i].1,
    decreases s.len(),
{
    if i < s.len() - 1 {
        assert(distinct_keys(s.drop_last())) by {
            assert forall|a: int, b: int| 0 <= a < b < s.drop_last().len() implies (#[trigger] s.drop_last()[a]).0
                != (#[trigger] s.drop_last()[b]).0 by {
                assert(s[a].0 != s[b].0);
            }
        }
        lemma_entries_lookup(s.drop_last(), i);
        assert(s[i].0 != s[s.len() - 1].0);
    }
}

pub(crate) proof fn lemma_entries_absent(s: CacheEntries, k: Seq<char>)
    requires
        forall|i: int| 0 <= i < s.len() ==> (#[trigger] s[i]).0 != k,
    ensures
        !entries_map(s).contains_key(k),
    decreases s.len(),
{
    if s.len() > 0 {
        assert(s.last().0 != k);
        lemma_entries_absent(s.drop_last(), k);
    }
}

/// Every answer in the map of `s` is the answer of some entry of `s`.
pub(crate) proof fn lemma_entries_value(s: CacheEntries, k: Seq<char>) -> (i: int)
    requires
        entries_map(s).contains_key(k),
    ensures
        0 <= i < s.len(),
        s[i].0 == k,
        s[i].1 == entries_map(s)[k],
    decreases s.len(),
{
    if s.last().0 == k {
        s.len() - 1
    } else {
        lemma_entries_value(s.drop_last(), k)
    }
}

/// The answer cached under `key`, if it has not expired by `now`.
pub open spec fn cache_lookup(c: Map<Seq<char>, CachedRecord>, key: Seq<char>, now: Timestamp) -> Option<
    ZdnsRecord,
> {
    if c.contains_key(key) && now.precedes(c[key].expires_at) {
        Some(c[key].record)
    } else {
        None
    }
}

/// An entry that survives storing a new answer under `key` at `now`: it
/// has another key and has not expired.
pub open spec fn keeps_entry(key: Seq<char>, now: Timestamp) -> spec_fn((Seq<char>, CachedRecord)) -> bool {
    |e: (Seq<char>, CachedRecord)| e.0 != key && now.precedes(e.1.expires_at)
}

/// The newest `max` entries of `s` (all of them when there are no more).
pub open spec fn newest(s: CacheEntries, max: nat) -> CacheEntries {
    if s.len() > max {
        s.skip(s.len() - max)
    } else {
        s
    }
}

/// The entry that caching `records` at `now` adds: the first record, until
/// its TTL runs out.
pub open spec fn new_cache_entry(records: Seq<ZdnsRecord>, now: Timestamp) -> CachedRecord {
    CachedRecord {
        record: records[0],
        expires_at: now.after_seconds(records[0].ttl as int),
        access_count: 1,
    }
}

/// The cache after answering with `records` under `key` at `now`, holding
/// at most `max_size` entries: the first record is cached for its TTL as
/// the newest entry (replacing any entry under `key`), every expired entry
/// is dropped, and then the oldest entries give way until `max_size` remain.
pub open spec fn cache_after_store(
    c: CacheEntries,
    key: Seq<char>,
    records: Seq<ZdnsRecord>,
    now: Timestamp,
    max_size: nat,
) -> CacheEntries {
    if records.len() == 0 {
        c
    } else {
        let entry = new_cache_entry(records, now);
        let kept = c.filter(keeps_entry(key, now));
        let all = if now.precedes(entry.expires_at) {
            kept.push((key, entry))
        } else {
            kept
        };
        newest(all, max_size)
    }
}

} // verus!

verus! {

/// How long, in seconds, a client may keep an answer served from the cache.
pub const CACHED_ANSWER_LIFETIME_SECS: u32 = 300;

/// The fee charged for a query that offers none: 0.01, as an `f64` bit pattern.
pub const DEFAULT_QUERY_FEE: u64 = 0x3F84_7AE1_47AE_147B;

/// The fee a query is charged: the one it offers, else the default.
pub open spec fn query_fee(q: ZdnsQuery) -> u64 {
    match q.dao_fee {
        Some(f) => f,
        None => DEFAULT_QUERY_FEE,
    }
}

/// `t` records charging `query` on node `node_id`: a fresh `zdns_`
/// identifier, the query's fee, the given shares, and the hosting share
/// going to the node.
pub open spec fn fee_transaction(
    t: EconomicTransaction,
    query: ZdnsQuery,
    shares: FeeShares,
    node_id: Seq<char>,
) -> bool {
    &&& is_zdns_id(t.tx_id@)
    &&& t.dao_fee_paid == query_fee(query)
    &&& t.ubi_contribution == shares.ubi_contribution
    &&& t.owner_payment == shares.owner_payment
    &&& t.network_fee == shares.network_fee
    &&& t.hosting_rewards@.len() == 1
    &&& t.hosting_rewards@[0].0@ == node_id
    &&& t.hosting_rewards@[0].1 == shares.hosting_reward
}

/// The processing time reported for answers served from the cache.
pub const CACHED_PROCESSING_TIME_MS: u64 = 1;

/// `resp` answers `query` with `record` from the cache of node `node_id` at
/// `now`, reporting `hit_ratio`: not authoritative, proofs and fees not
/// processed again.
pub open spec fn cache_hit_response(
    resp: ZdnsResponse,
    query: ZdnsQuery,
    record: ZdnsRecord,
    now: Timestamp,
    node_id: Seq<char>,
    hit_ratio: u64,
) -> bool {
    &&& resp.id == query.id
    &&& resp.flags == ZdnsFlags {
        qr: true,
        opcode: 0,
        aa: false,
        tc: false,
        rd: query.recursion_desired,
        ra: true,
        zk: false,
        dao: false,
        rcode: 0,
    }
    &&& resp.questions@ =~= seq![query]
    &&& resp.answers@ =~= seq![record]
    &&& resp.authority@.len() == 0
    &&& resp.additional@.len() == 0
    &&& resp.metadata.timestamp == now
    &&& resp.metadata.processing_time_ms == CACHED_PROCESSING_TIME_MS
    &&& resp.metadata.server_node_id@ == node_id
    &&& resp.metadata.economic_details is None
    &&& resp.metadata.cache_info matches Some(info) && {
        &&& info.cached
        &&& info.hit_ratio == hit_ratio
        &&& info.expires_at == now.after_seconds(CACHED_ANSWER_LIFETIME_SECS as int)
        &&& info.cache_nodes@.len() == 1
        &&& info.cache_nodes@[0]@ == node_id
    }
}

/// `resp` answers `query` with the stored records `found` at `now`, under
/// the settings `config`; when fees are required, the charge for the query
/// split into `shares` is attached. The processing time is whatever was
/// measured.
pub open spec fn resolved_response(
    resp: ZdnsResponse,
    query: ZdnsQuery,
    found: Seq<ZdnsRecord>,
    now: Timestamp,
    config: ZdnsConfig,
    shares: FeeShares,
) -> bool {
    &&& resp.id == query.id
    &&& resp.flags == ZdnsFlags {
        qr: true,
        opcode: 0,
        aa: true,
        tc: false,
        rd: query.recursion_desired,
        ra: true,
        zk: config.security_config.require_zk_proofs,
        dao: config.security_config.require_dao_fees,
        rcode: 0,
    }
    &&& resp.questions@ =~= seq![query]
    &&& resp.answers@ == found
    &&& resp.authority@.len() == 0
    &&& resp.additional@.len() == 0
    &&& resp.metadata.timestamp == now
    &&& resp.metadata.server_node_id@ == config.node_id@
    &&& if config.security_config.require_dao_fees {
        resp.metadata.economic_details matches Some(t) && fee_transaction(
            t,
            query,
            shares,
            config.node_id@,
        )
    } else {
        resp.metadata.economic_details is None
    }
    &&& resp.metadata.cache_info is None
}

} // verus!

verus! {

/// How long, in seconds, a query counts against its client's rate.
pub const RATE_WINDOW_SECS: u32 = 60;

/// Queries that named a client: who asked and when, oldest first.
pub type CallLog = Seq<(Seq<char>, Timestamp)>;

/// Every query in the log arrived at a time the clock can report.
pub open spec fn log_in_clock_range(log: CallLog) -> bool {
    forall|i: int| 0 <= i < log.len() ==> (#[trigger] log[i]).1.in_clock_range()
}

/// A query made at `t` still counts at `now`: less than a minute has passed.
pub open spec fn counts_at(t: Timestamp, now: Timestamp) -> bool {
    now.precedes(t.after_seconds(RATE_WINDOW_SECS as int))
}

pub open spec fn still_counts(now: Timestamp) -> spec_fn((Seq<char>, Timestamp)) -> bool {
    |e: (Seq<char>, Timestamp)| counts_at(e.1, now)
}

pub open spec fn recent_call_by(client: Seq<char>, now: Timestamp) -> spec_fn(
    (Seq<char>, Timestamp),
) -> bool {
    |e: (Seq<char>, Timestamp)| e.0 == client && counts_at(e.1, now)
}

/// How many queries `client` made that still count at `now`.
pub open spec fn recent_calls(log: CallLog, client: Seq<char>, now: Timestamp) -> nat {
    log.filter(recent_call_by(client, now)).len()
}

/// `q` names a client that has already made `max_rate` queries in the
/// minute before `now`.
pub open spec fn rate_limited(log: CallLog, q: ZdnsQuery, now: Timestamp, max_rate: u32) -> bool {
    q.client_id matches Some(c) && recent_calls(log, c@, now) >= max_rate
}

/// The log after `q` arrives at `now`: queries that no longer count are
/// forgotten, and `q` is noted when it names a client.
pub open spec fn log_after(log: CallLog, q: ZdnsQuery, now: Timestamp) -> CallLog {
    let pruned = log.filter(still_counts(now));
    match q.client_id {
        Some(c) => pruned.push((c@, now)),
        None => pruned,
    }
}

} // verus!
