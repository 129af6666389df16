//! Properties of the service that span several operations.
use vstd::prelude::*;

use crate::model::{
    cache_after_store, cache_lookup, delete_outcome, entries_map, keeps_entry, newest,
    lemma_entries_value, new_cache_entry, CacheEntries, log_after, recent_call_by, recent_calls,
    still_counts, CallLog, cache_key_text, rate_limited, first_of_type, has_type,
    is_first_of_type, is_first_owned, lemma_first_of_type_is, lemma_first_owned_is, lemma_type_present_has_first,
    records_well_formed, register_outcome, resolve_outcome, stored, update_outcome, with_record,
    domain_well_formed, query_fee, RecordMap,
};
use crate::server::{query_answered, CachedRecord, ZdnsServer};
use crate::types::{FeeShares, ProtocolError, ZdnsResponse, Failure, Timestamp, ZdnsQuery, ZdnsRecord, ZdnsRecordType};
use crate::validate::{
    admission_rejection, has_short_ownership_proof, query_proof_rejection, query_refusal, query_rejection, record_accepted,
    MIN_OWNERSHIP_PROOF_BYTES,
};
use crate::text::byte_len;
use crate::address::{is_ipv4_text, is_ipv6_text};

verus! {

proof fn lemma_filter_none(s: Seq<ZdnsRecord>, t: ZdnsRecordType)
    requires
        forall|j: int| 0 <= j < s.len() ==> (#[trigger] s[j]).record_type != t,
    ensures
        s.filter(has_type(t)) =~= Seq::<ZdnsRecord>::empty(),
    decreases s.len(),
{
    reveal(Seq::filter);
    if s.len() > 0 {
        lemma_filter_none(s.drop_last(), t);
    }
}

proof fn lemma_filter_exactly_one(s: Seq<ZdnsRecord>, t: ZdnsRecordType, i: int)
    requires
        0 <= i < s.len(),
        s[i].record_type == t,
        forall|j: int| 0 <= j < s.len() && j != i ==> (#[trigger] s[j]).record_type != t,
    ensures
        s.filter(has_type(t)) =~= seq![s[i]],
    decreases s.len(),
{
    reveal(Seq::filter);
    if i == s.len() - 1 {
        lemma_filter_none(s.drop_last(), t);
    } else {
        lemma_filter_exactly_one(s.drop_last(), t, i);
    }
}

/// The only position of type `t` in the list stored for `r` is where `r` stands.
proof fn lemma_stored_position(m: RecordMap, r: ZdnsRecord) -> (i: int)
    requires
        records_well_formed(m),
    ensures
        stored(m, r).contains_key(r.name@),
        0 <= i < stored(m, r)[r.name@].len(),
        stored(m, r)[r.name@][i] == r,
        is_first_of_type(stored(m, r)[r.name@], r.record_type, i),
        forall|j: int|
            0 <= j < stored(m, r)[r.name@].len() && j != i ==> (#[trigger] stored(
                m,
                r,
            )[r.name@][j]).record_type != r.record_type,
        !m.contains_key(r.name@) ==> stored(m, r)[r.name@] == seq![r],
        m.contains_key(r.name@) && first_of_type(m[r.name@], r.record_type) is None
            ==> stored(m, r)[r.name@] == m[r.name@].push(r) && i == m[r.name@].len(),
{
    let k = r.name@;
    let t = r.record_type;
    if !m.contains_key(k) {
        0
    } else {
        let l = m[k];
        assert(domain_well_formed(k, l));
        match first_of_type(l, t) {
            Some(_) => {
                let i = choose|i: int| is_first_of_type(l, t, i);
                assert(is_first_of_type(l, t, i));
                assert forall|j: int| 0 <= j < l.len() && j != i implies (#[trigger] l.update(i, r)[j]).record_type
                    != t by {
                    if j < i {
                        assert(l[j].record_type != l[i].record_type);
                    } else {
                        assert(l[i].record_type != l[j].record_type);
                    }
                }
                i
            },
            None => {
                assert forall|j: int| 0 <= j < l.len() implies (#[trigger] l[j]).record_type != t by {
                    if l[j].record_type == t {
                        lemma_type_present_has_first(l, t, j);
                    }
                }
                l.len() as int
            },
        }
    }
}

/// A read gives back what a write wrote: once `r` is registered, resolving
/// its name for its type answers exactly `r`.
pub proof fn lemma_register_then_resolve(m: RecordMap, r: ZdnsRecord, pq: bool)
    requires
        records_well_formed(m),
        register_outcome(m, r, pq) is Ok,
    ensures
        resolve_outcome(register_outcome(m, r, pq)->Ok_0, r.name@, r.record_type) == Ok::<
            Seq<ZdnsRecord>,
            Failure,
        >(seq![r]),
{
    let i = lemma_stored_position(m, r);
    lemma_filter_exactly_one(stored(m, r)[r.name@], r.record_type, i);
}

/// Registering the same record twice leaves the store as registering it once.
pub proof fn lemma_register_is_idempotent(m: RecordMap, r: ZdnsRecord, pq: bool)
    requires
        records_well_formed(m),
        register_outcome(m, r, pq) is Ok,
    ensures
        register_outcome(register_outcome(m, r, pq)->Ok_0, r, pq) == register_outcome(m, r, pq),
{
    let m2 = stored(m, r);
    let i = lemma_stored_position(m, r);
    let l2 = m2[r.name@];
    lemma_first_of_type_is(l2, r.record_type, i);
    assert(with_record(l2, r) =~= l2);
    assert(stored(m2, r) =~= m2);
}

/// Deleting, as its owner, a record just registered under a name that had no
/// record of its type gives back the store as it was.
pub proof fn lemma_register_then_delete(m: RecordMap, r: ZdnsRecord, pq: bool)
    requires
        records_well_formed(m),
        register_outcome(m, r, pq) is Ok,
        !m.contains_key(r.name@) || first_of_type(m[r.name@], r.record_type) is None,
    ensures
        delete_outcome(
            register_outcome(m, r, pq)->Ok_0,
            r.name@,
            r.record_type,
            r.metadata.owner_id@,
        ) == Ok::<RecordMap, Failure>(m),
{
    let k = r.name@;
    let m2 = stored(m, r);
    let i = lemma_stored_position(m, r);
    let l2 = m2[k];
    lemma_first_owned_is(l2, r.record_type, r.metadata.owner_id@, i);
    if !m.contains_key(k) {
        assert(l2.remove(i) =~= Seq::<ZdnsRecord>::empty());
        assert(m2.remove(k) =~= m);
    } else {
        assert(domain_well_formed(k, m[k]));
        assert(l2.remove(i) =~= m[k]);
        assert(m2.insert(k, m[k]) =~= m);
    }
}

/// An update never adds or drops a domain or a record, never changes a
/// record's type, and never changes who owns a record.
pub proof fn lemma_update_keeps_owners(m: RecordMap, r: ZdnsRecord, pq: bool)
    requires
        update_outcome(m, r, pq) is Ok,
    ensures
        ({
            let m2 = update_outcome(m, r, pq)->Ok_0;
            &&& m2.dom() == m.dom()
            &&& forall|k: Seq<char>| #[trigger]
                m.contains_key(k) ==> m2[k].len() == m[k].len() && forall|i: int|
                    0 <= i < m[k].len() ==> (#[trigger] m2[k][i]).metadata.owner_id@
                        == m[k][i].metadata.owner_id@ && m2[k][i].record_type == m[k][i].record_type
        }),
{
    let k = r.name@;
    let i = choose|i: int| is_first_of_type(m[k], r.record_type, i);
    assert(is_first_of_type(m[k], r.record_type, i));
    let m2 = update_outcome(m, r, pq)->Ok_0;
    assert(m2.dom() =~= m.dom());
}

/// After an update, resolving the record's name for its type answers
/// exactly the new record.
pub proof fn lemma_update_then_resolve(m: RecordMap, r: ZdnsRecord, pq: bool)
    requires
        records_well_formed(m),
        update_outcome(m, r, pq) is Ok,
    ensures
        resolve_outcome(update_outcome(m, r, pq)->Ok_0, r.name@, r.record_type) == Ok::<
            Seq<ZdnsRecord>,
            Failure,
        >(seq![r]),
{
    let k = r.name@;
    let t = r.record_type;
    let l = m[k];
    assert(domain_well_formed(k, l));
    let i = choose|i: int| is_first_of_type(l, t, i);
    assert(is_first_of_type(l, t, i));
    let l2 = l.update(i, r);
    assert forall|j: int| 0 <= j < l2.len() && j != i implies (#[trigger] l2[j]).record_type != t by {
        if j < i {
            assert(l[j].record_type != l[i].record_type);
        } else {
            assert(l[i].record_type != l[j].record_type);
        }
    }
    lemma_filter_exactly_one(l2, t, i);
}

/// The records of type `t` that domain `name` holds in `m` (none when it is absent).
pub open spec fn records_of_type(m: RecordMap, name: Seq<char>, t: ZdnsRecordType) -> Seq<ZdnsRecord> {
    if m.contains_key(name) {
        m[name].filter(has_type(t))
    } else {
        Seq::empty()
    }
}

/// Deleting a record leaves every record of another type where it was.
pub proof fn lemma_delete_keeps_other_types(
    m: RecordMap,
    name: Seq<char>,
    t: ZdnsRecordType,
    owner: Seq<char>,
    other: ZdnsRecordType,
)
    requires
        records_well_formed(m),
        delete_outcome(m, name, t, owner) is Ok,
        other != t,
    ensures
        records_of_type(delete_outcome(m, name, t, owner)->Ok_0, name, other) == records_of_type(
            m,
            name,
            other,
        ),
{
    let l = m[name];
    let i = choose|i: int| is_first_owned(l, t, owner, i);
    assert(is_first_owned(l, t, owner, i));
    let a = l.subrange(0, i);
    let b = l.subrange(i + 1, l.len() as int);
    assert(l =~= a + seq![l[i]] + b);
    assert(l.remove(i) =~= a + b);
    let p = has_type(other);
    Seq::filter_distributes_over_add(a + seq![l[i]], b, p);
    Seq::filter_distributes_over_add(a, seq![l[i]], p);
    Seq::filter_distributes_over_add(a, b, p);
    assert(!p(l[i]));
    assert(seq![l[i]].filter(p) =~= Seq::<ZdnsRecord>::empty()) by {
        reveal_with_fuel(Seq::filter, 2);
        assert(seq![l[i]].drop_last() =~= Seq::<ZdnsRecord>::empty());
    }
    assert(l.filter(p) =~= l.remove(i).filter(p));
    if l.remove(i).len() == 0 {
        assert(l.remove(i).filter(p) =~= Seq::<ZdnsRecord>::empty()) by {
            reveal(Seq::filter);
        }
    }
}

/// Records answered from the store always carry an ownership proof long
/// enough for the proof check: registration already required it.
pub proof fn lemma_resolved_records_pass_proof_check(m: RecordMap, name: Seq<char>, t: ZdnsRecordType)
    requires
        records_well_formed(m),
        resolve_outcome(m, name, t) is Ok,
    ensures
        !has_short_ownership_proof(resolve_outcome(m, name, t)->Ok_0),
{
    let found = resolve_outcome(m, name, t)->Ok_0;
    let l = m[name];
    assert(domain_well_formed(name, l));
    assert forall|i: int| 0 <= i < found.len() implies byte_len(
        #[trigger] found[i].ownership_proof@,
    ) >= MIN_OWNERSHIP_PROOF_BYTES by {
        assert(found.contains(found[i]));
        l.lemma_filter_contains_rev(has_type(t), found[i]);
        let j = choose|j: int| 0 <= j < l.len() && l[j] == found[i];
        assert(record_accepted(l[j]));
    }
}

/// Every entry of the cache right after an answer is cached is one that
/// was kept from before or the new one.
proof fn lemma_stored_entry_origin(
    c: CacheEntries,
    key: Seq<char>,
    records: Seq<ZdnsRecord>,
    now: Timestamp,
    max_size: nat,
    i: int,
)
    requires
        records.len() > 0,
        0 <= i < cache_after_store(c, key, records, now, max_size).len(),
    ensures
        now.precedes(cache_after_store(c, key, records, now, max_size)[i].1.expires_at),
{
    let entry = new_cache_entry(records, now);
    let p = keeps_entry(key, now);
    let kept = c.filter(p);
    let all = if now.precedes(entry.expires_at) {
        kept.push((key, entry))
    } else {
        kept
    };
    let j = if all.len() > max_size {
        i + (all.len() - max_size)
    } else {
        i
    };
    assert(cache_after_store(c, key, records, now, max_size)[i] == all[j]);
    if j < kept.len() {
        c.lemma_filter_pred(p, j);
        assert(all[j] == kept[j]);
    }
}

/// Right after an answer is cached, the cache holds no expired entry.
pub proof fn lemma_cache_holds_only_live_entries(
    c: CacheEntries,
    key: Seq<char>,
    records: Seq<ZdnsRecord>,
    now: Timestamp,
    max_size: nat,
)
    requires
        records.len() > 0,
    ensures
        forall|k: Seq<char>| #[trigger]
            entries_map(cache_after_store(c, key, records, now, max_size)).contains_key(k)
                ==> now.precedes(
                entries_map(cache_after_store(c, key, records, now, max_size))[k].expires_at,
            ),
{
    let s = cache_after_store(c, key, records, now, max_size);
    assert forall|k: Seq<char>| #[trigger] entries_map(s).contains_key(k) implies now.precedes(
        entries_map(s)[k].expires_at,
    ) by {
        let i = lemma_entries_value(s, k);
        lemma_stored_entry_origin(c, key, records, now, max_size, i);
    }
}

/// Right after an answer is cached, the cache holds no more entries than
/// its maximum size.
pub proof fn lemma_cache_respects_max_size(
    c: CacheEntries,
    key: Seq<char>,
    records: Seq<ZdnsRecord>,
    now: Timestamp,
    max_size: nat,
)
    requires
        records.len() > 0,
    ensures
        cache_after_store(c, key, records, now, max_size).len() <= max_size,
{
}

/// A cached answer is served back, unchanged, to every lookup of its key
/// from the moment it is cached until its TTL runs out, when the cache can
/// hold at least one entry.
pub proof fn lemma_cache_serves_stored_answer(
    c: CacheEntries,
    key: Seq<char>,
    records: Seq<ZdnsRecord>,
    now: Timestamp,
    max_size: nat,
    later: Timestamp,
)
    requires
        records.len() > 0,
        max_size > 0,
        !later.precedes(now),
        later.precedes(now.after_seconds(records[0].ttl as int)),
    ensures
        cache_lookup(entries_map(cache_after_store(c, key, records, now, max_size)), key, later)
            == Some(records[0]),
{
    let entry = new_cache_entry(records, now);
    let kept = c.filter(keeps_entry(key, now));
    let all = kept.push((key, entry));
    let s = cache_after_store(c, key, records, now, max_size);
    assert(s.len() > 0);
    assert(s.last() == all.last());
    assert(entries_map(s) == entries_map(s.drop_last()).insert(key, entry));
}

proof fn lemma_filter_of_filter(s: CallLog, p: spec_fn((Seq<char>, Timestamp)) -> bool, q: spec_fn(
    (Seq<char>, Timestamp),
) -> bool)
    requires
        forall|x: (Seq<char>, Timestamp)| #[trigger] p(x) ==> q(x),
    ensures
        s.filter(q).filter(p) == s.filter(p),
    decreases s.len(),
{
    reveal(Seq::filter);
    if s.len() > 0 {
        lemma_filter_of_filter(s.drop_last(), p, q);
        if q(s.last()) {
            assert(s.filter(q).drop_last() =~= s.drop_last().filter(q));
        }
    }
}

/// A query that names a client counts against that client at once: the
/// client's count of recent queries grows by exactly one.
pub proof fn lemma_call_is_counted(log: CallLog, q: ZdnsQuery, now: Timestamp)
    requires
        q.client_id is Some,
        now.in_clock_range(),
    ensures
        recent_calls(log_after(log, q, now), q.client_id->Some_0@, now) == recent_calls(
            log,
            q.client_id->Some_0@,
            now,
        ) + 1,
{
    let c = q.client_id->Some_0@;
    let pc = recent_call_by(c, now);
    let pn = still_counts(now);
    lemma_filter_of_filter(log, pc, pn);
    let pruned = log.filter(pn);
    assert(pc((c, now)));
    assert(pruned.push((c, now)).filter(pc) == pruned.filter(pc).push((c, now))) by {
        reveal_with_fuel(Seq::filter, 1);
        assert(pruned.push((c, now)).drop_last() =~= pruned);
    }
}

/// Dropping the entries that fail `p` keeps the answer under `key`, when
/// that answer passes `p`.
proof fn lemma_filter_keeps_answer(
    s: CacheEntries,
    p: spec_fn((Seq<char>, CachedRecord)) -> bool,
    key: Seq<char>,
)
    requires
        entries_map(s).contains_key(key),
        p((key, entries_map(s)[key])),
    ensures
        entries_map(s.filter(p)).contains_key(key),
        entries_map(s.filter(p))[key] == entries_map(s)[key],
    decreases s.len(),
{
    reveal(Seq::filter);
    let d = s.drop_last();
    if s.last().0 == key {
        assert(s.filter(p) == d.filter(p).push(s.last()));
        assert(s.filter(p).drop_last() =~= d.filter(p));
    } else {
        lemma_filter_keeps_answer(d, p, key);
        if p(s.last()) {
            assert(s.filter(p).drop_last() =~= d.filter(p));
        }
    }
}

/// A query leaves a live cached answer in place: if the answer under `key`
/// has not expired when the query arrives and the cache has room for one
/// more entry, then whatever the query and its outcome, the same answer is
/// cached under `key` afterwards.
pub proof fn lemma_cached_answer_survives_query(
    s0: ZdnsServer,
    s1: ZdnsServer,
    q: ZdnsQuery,
    shares: FeeShares,
    ratio: u64,
    now: Timestamp,
    r: Result<ZdnsResponse, ProtocolError>,
    key: Seq<char>,
)
    requires
        query_answered(s0, s1, q, shares, ratio, now, r),
        s0.cache_view().contains_key(key),
        now.precedes(s0.cache_view()[key].expires_at),
        s0.cache_entries().len() < s0.config_view().cache_config.max_size,
    ensures
        s1.cache_view().contains_key(key),
        s1.cache_view()[key] == s0.cache_view()[key],
{
    let cfg = s0.config_view();
    let c = s0.cache_entries();
    let k2 = cache_key_text(q.name@, q.record_type);
    if s1.cache_entries() != c {
        // Only an answer resolved from the store changes the cache, and
        // that happens only when nothing live is cached under its key.
        assert(cache_lookup(s0.cache_view(), k2, now) is None);
        assert(k2 != key);
        let found = resolve_outcome(s0.records_view(), q.name@, q.record_type)->Ok_0;
        let max = cfg.cache_config.max_size as nat;
        assert(s1.cache_entries() == cache_after_store(c, k2, found, now, max));
        assert(found.len() > 0);
        let p = keeps_entry(k2, now);
        let kept = c.filter(p);
        lemma_filter_keeps_answer(c, p, key);
        c.lemma_filter_len(p);
        let entry = new_cache_entry(found, now);
        let all = if now.precedes(entry.expires_at) {
            kept.push((k2, entry))
        } else {
            kept
        };
        if now.precedes(entry.expires_at) {
            assert(all.drop_last() =~= kept);
        }
        assert(all.len() <= max);
        assert(cache_after_store(c, k2, found, now, max) == all);
    }
}

/// One step in the life of a server, at time `t`: it handles some query,
/// or it does something that leaves its settings and its cache alone, as
/// registering, updating and deleting records do.
pub open spec fn server_step(s0: ZdnsServer, s1: ZdnsServer, t: Timestamp) -> bool {
    ||| exists|q: ZdnsQuery, sh: FeeShares, hr: u64, r: Result<ZdnsResponse, ProtocolError>|
        query_answered(s0, s1, q, sh, hr, t, r)
    ||| s1.cache_entries() == s0.cache_entries() && s1.config_view() == s0.config_view()
}

/// `states` is a life of a server: each state goes to the next by one step,
/// taken at the time at the same position of `times`.
pub open spec fn server_run(states: Seq<ZdnsServer>, times: Seq<Timestamp>) -> bool {
    &&& states.len() == times.len() + 1
    &&& forall|i: int| 0 <= i < times.len() ==> server_step(states[i], states[i + 1], #[trigger] times[i])
}

proof fn lemma_run_keeps_answer(
    states: Seq<ZdnsServer>,
    times: Seq<Timestamp>,
    key: Seq<char>,
    e: CachedRecord,
    j: int,
)
    requires
        server_run(states, times),
        states[0].cache_view().contains_key(key),
        states[0].cache_view()[key] == e,
        forall|i: int|
            0 <= i < times.len() ==> (#[trigger] times[i]).precedes(e.expires_at)
                && states[i].cache_entries().len() < states[0].config_view().cache_config.max_size,
        0 <= j < states.len(),
    ensures
        states[j].cache_view().contains_key(key),
        states[j].cache_view()[key] == e,
        states[j].config_view() == states[0].config_view(),
    decreases j,
{
    if j > 0 {
        lemma_run_keeps_answer(states, times, key, e, j - 1);
        let t = times[j - 1];
        let a = states[j - 1];
        let b = states[j];
        assert(server_step(a, b, t));
        if exists|q: ZdnsQuery, sh: FeeShares, hr: u64, r: Result<ZdnsResponse, ProtocolError>|
            query_answered(a, b, q, sh, hr, t, r) {
            let (q, sh, hr, r) = choose|
                q: ZdnsQuery,
                sh: FeeShares,
                hr: u64,
                r: Result<ZdnsResponse, ProtocolError>,
            | query_answered(a, b, q, sh, hr, t, r);
            lemma_cached_answer_survives_query(a, b, q, sh, hr, t, r, key);
        }
    }
}

/// A cached answer keeps being served. A query answered from the store with
/// caching on caches the first record of its answer; any number of steps
/// may follow (other queries, and changes to the records), each before that
/// record expires and none finding the cache full, so that no entry has to
/// give way. Then a query for the same name and type that comes before the
/// record expires, is within its client's rate and carries a proof where
/// proofs are required, is answered from the cache with that first record,
/// not authoritatively, whatever happened to the stored records meanwhile.
pub proof fn lemma_answer_served_from_cache(
    s0: ZdnsServer,
    q1: ZdnsQuery,
    shares1: FeeShares,
    ratio1: u64,
    t1: Timestamp,
    r1: Result<ZdnsResponse, ProtocolError>,
    states: Seq<ZdnsServer>,
    times: Seq<Timestamp>,
    s2: ZdnsServer,
    q2: ZdnsQuery,
    shares2: FeeShares,
    ratio2: u64,
    t2: Timestamp,
    r2: Result<ZdnsResponse, ProtocolError>,
)
    requires
        server_run(states, times),
        query_answered(s0, states[0], q1, shares1, ratio1, t1, r1),
        r1 matches Ok(resp) && resp.flags.aa,
        s0.config_view().cache_config.enabled,
        s0.config_view().cache_config.max_size > 0,
        forall|i: int|
            0 <= i < times.len() ==> (#[trigger] times[i]).precedes(
                t1.after_seconds(r1->Ok_0.answers@[0].ttl as int),
            ) && states[i].cache_entries().len() < s0.config_view().cache_config.max_size,
        query_answered(states.last(), s2, q2, shares2, ratio2, t2, r2),
        q2.name@ == q1.name@,
        q2.record_type == q1.record_type,
        !rate_limited(states.last().call_log(), q2, t2, s0.config_view().security_config.max_query_rate),
        query_proof_rejection(q2, s0.config_view().security_config.require_zk_proofs) is None,
        !t2.precedes(t1),
        t2.precedes(t1.after_seconds(r1->Ok_0.answers@[0].ttl as int)),
    ensures
        r2 matches Ok(resp) && {
            &&& resp.answers@ == seq![r1->Ok_0.answers@[0]]
            &&& !resp.flags.aa
            &&& resp.metadata.cache_info matches Some(info) && info.cached
        },
{
    let cfg = s0.config_view();
    let key = cache_key_text(q1.name@, q1.record_type);
    assert(!rate_limited(s0.call_log(), q1, t1, cfg.security_config.max_query_rate));
    assert(query_refusal(q1, cfg.security_config.require_zk_proofs) is None);
    assert(query_rejection(q2) == query_rejection(q1));
    assert(query_refusal(q2, cfg.security_config.require_zk_proofs) is None);
    assert(cache_lookup(s0.cache_view(), key, t1) is None);
    let found = resolve_outcome(s0.records_view(), q1.name@, q1.record_type)->Ok_0;
    assert(r1->Ok_0.answers@ == found);
    assert(found.len() > 0);
    let max = cfg.cache_config.max_size as nat;
    let e = new_cache_entry(found, t1);
    let kept = s0.cache_entries().filter(keeps_entry(key, t1));
    let all = kept.push((key, e));
    let c1 = states[0].cache_entries();
    assert(c1 == cache_after_store(s0.cache_entries(), key, found, t1, max));
    assert(c1 == newest(all, max));
    assert(c1.len() > 0 && c1.last() == (key, e));
    assert(states[0].cache_view() == entries_map(c1.drop_last()).insert(key, e));
    lemma_run_keeps_answer(states, times, key, e, states.len() - 1);
    let last = states.last();
    assert(cache_key_text(q2.name@, q2.record_type) == key);
    assert(cache_lookup(last.cache_view(), key, t2) == Some(found[0]));
}

/// A query is charged exactly the fee it offers, whatever its size; only a
/// query that offers none is charged the default of 0.01 (the `f64` bit
/// pattern below).
pub proof fn lemma_query_is_charged_its_offered_fee(q: ZdnsQuery)
    ensures
        q.dao_fee matches Some(f) ==> query_fee(q) == f,
        q.dao_fee is None ==> query_fee(q) == 0x3F84_7AE1_47AE_147Bu64,
{
}

/// The fee record attached to an answer charges the fee the query offered
/// (0.01 when it offered none), carries the shares it was given, and pays
/// the hosting share to the answering node alone.
pub proof fn lemma_answer_charges_offered_fee(
    s0: ZdnsServer,
    s1: ZdnsServer,
    q: ZdnsQuery,
    shares: FeeShares,
    ratio: u64,
    now: Timestamp,
    r: Result<ZdnsResponse, ProtocolError>,
)
    requires
        query_answered(s0, s1, q, shares, ratio, now, r),
        r matches Ok(resp) && resp.metadata.economic_details is Some,
    ensures
        ({
            let t = r->Ok_0.metadata.economic_details->Some_0;
            &&& q.dao_fee matches Some(f) ==> t.dao_fee_paid == f
            &&& q.dao_fee is None ==> t.dao_fee_paid == 0x3F84_7AE1_47AE_147Bu64
            &&& t.ubi_contribution == shares.ubi_contribution
            &&& t.network_fee == shares.network_fee
            &&& t.owner_payment == shares.owner_payment
            &&& t.hosting_rewards@.len() == 1
            &&& t.hosting_rewards@[0].0@ == s0.config_view().node_id@
            &&& t.hosting_rewards@[0].1 == shares.hosting_reward
        }),
{
}

/// Every answer echoes its query: the same id, the query as its only
/// question, and the recursion flag the query asked for, whether it was
/// resolved from the store or served from the cache. Every answer is
/// marked as a response, offers recursion, is not truncated and reports no
/// error; it is authoritative exactly when it was not served from the cache.
pub proof fn lemma_answer_echoes_query(
    s0: ZdnsServer,
    s1: ZdnsServer,
    q: ZdnsQuery,
    shares: FeeShares,
    ratio: u64,
    now: Timestamp,
    r: Result<ZdnsResponse, ProtocolError>,
)
    requires
        query_answered(s0, s1, q, shares, ratio, now, r),
        r is Ok,
    ensures
        ({
            let resp = r->Ok_0;
            &&& resp.id == q.id
            &&& resp.questions@ == seq![q]
            &&& resp.flags.rd == q.recursion_desired
            &&& resp.flags.qr
            &&& resp.flags.ra
            &&& !resp.flags.tc
            &&& resp.flags.opcode == 0
            &&& resp.flags.rcode == 0
            &&& (resp.flags.aa <==> resp.metadata.cache_info is None)
        }),
{
}

/// The owner of a domain's record of some type may replace it: when the
/// domain holds a record of the update's type owned by the update's owner
/// and the new record passes the checks of a registration, the update goes
/// through and puts the new record in that one's place, whoever owns the
/// domain's records of other types.
pub proof fn lemma_owner_may_update(m: RecordMap, r: ZdnsRecord, pq: bool, i: int)
    requires
        records_well_formed(m),
        m.contains_key(r.name@),
        0 <= i < m[r.name@].len(),
        m[r.name@][i].record_type == r.record_type,
        m[r.name@][i].metadata.owner_id@ == r.metadata.owner_id@,
        admission_rejection(r, pq) is None,
    ensures
        update_outcome(m, r, pq) == Ok::<RecordMap, Failure>(m.insert(r.name@, m[r.name@].update(i, r))),
{
    let l = m[r.name@];
    assert(domain_well_formed(r.name@, l));
    assert forall|j: int| 0 <= j < i implies (#[trigger] l[j]).record_type != r.record_type by {
        assert(l[j].record_type != l[i].record_type);
    }
    lemma_first_of_type_is(l, r.record_type, i);
}

/// Registration turns a record away only for a failed check of its content,
/// its proofs or its signature: a record with a non-empty name and value,
/// the content its type calls for (IPv4 text for `A`, IPv6 text for
/// `AAAA`, a priority for `MX`, priority, weight and port for `SRV`), an
/// ownership proof of at least 64 bytes, a DAO fee proof of at least 32
/// bytes and, where signatures are required, a signature, is stored under
/// its name, whatever that name is, and resolving the name for its type
/// answers it.
pub proof fn lemma_registration_accepts_valid_records(m: RecordMap, r: ZdnsRecord, pq: bool)
    requires
        records_well_formed(m),
        r.name@.len() > 0,
        r.value@.len() > 0,
        r.record_type == ZdnsRecordType::A ==> is_ipv4_text(r.value@),
        r.record_type == ZdnsRecordType::AAAA ==> is_ipv6_text(r.value@),
        r.record_type == ZdnsRecordType::MX ==> r.priority is Some,
        r.record_type == ZdnsRecordType::SRV ==> r.priority is Some && r.weight is Some && r.port is Some,
        byte_len(r.ownership_proof@) >= 64,
        byte_len(r.dao_fee_proof@) >= 32,
        pq ==> r.pq_signature@.len() > 0,
    ensures
        register_outcome(m, r, pq) is Ok,
        resolve_outcome(register_outcome(m, r, pq)->Ok_0, r.name@, r.record_type) == Ok::<
            Seq<ZdnsRecord>,
            Failure,
        >(seq![r]),
{
    assert(admission_rejection(r, pq) is None);
    lemma_register_then_resolve(m, r, pq);
}

/// A query passes the format check exactly when its name contains a dot:
/// a `.zhtp` name always has one.
pub proof fn lemma_query_format_rule(q: ZdnsQuery)
    ensures
        query_rejection(q) is None <==> q.name@.contains('.'),
{
    reveal_strlit(".zhtp");
    let n = q.name@;
    if n.len() >= 5 && n.subrange(n.len() - 5, n.len() as int) == ".zhtp"@ {
        assert(n.subrange(n.len() - 5, n.len() as int)[0] == '.');
        assert(n[n.len() - 5] == '.');
    }
}

} // verus!
