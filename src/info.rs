//! The metadata stage: what the INFO command says of a server.

use vstd::prelude::*;
use crate::endpoint::{Endpoint, addrs};
use crate::probe::{kept, lemma_stage_narrows};
use crate::text::parsed_u64;

verus! {

#[verifier::external_type_specification]
#[verifier::external_body]
pub struct ExInfoDict(redis::InfoDict);

/// Declared because `InfoDict` dereferences to a map of these values.
#[verifier::external_type_specification]
#[verifier::external_body]
pub struct ExValue(redis::Value);

/// The fields of an INFO reply: each key with the text that followed it.
pub uninterp spec fn info_fields(d: redis::InfoDict) -> Map<Seq<char>, Seq<char>>;

/// Relies on redis::InfoDict::get::<String>: the text of a field, as the reply
/// held it, or `None` where the reply has no such field.
#[verifier::external_body]
fn info_text(d: &redis::InfoDict, key: &str) -> (r: Option<String>)
    ensures
        r is Some <==> info_fields(*d).contains_key(key@),
        r is Some ==> r->0@ == info_fields(*d)[key@],
{
    d.get(key)
}

/// Relies on redis::InfoDict::get::<u64>: the text of a field read by
/// `str::parse::<u64>`, or `None` where the field is missing or is no such number.
#[verifier::external_body]
fn info_number(d: &redis::InfoDict, key: &str) -> (r: Option<u64>)
    ensures
        r == number_field(info_fields(*d), key@),
{
    d.get(key)
}

/// A field's text, or `fallback` where it is missing.
pub open spec fn text_or(f: Map<Seq<char>, Seq<char>>, key: Seq<char>, fallback: Seq<char>) -> Seq<char> {
    if f.contains_key(key) {
        f[key]
    } else {
        fallback
    }
}

/// A field read as a `u64`.
pub open spec fn number_field(f: Map<Seq<char>, Seq<char>>, key: Seq<char>) -> Option<u64> {
    if f.contains_key(key) {
        parsed_u64(f[key])
    } else {
        None
    }
}

/// A record is made only where all of these fields are there and read.
pub open spec fn has_mandatory(f: Map<Seq<char>, Seq<char>>) -> bool {
    &&& f.contains_key("redis_version"@)
    &&& number_field(f, "arch_bits"@) is Some
    &&& number_field(f, "connected_clients"@) is Some
    &&& f.contains_key("role"@)
    &&& number_field(f, "connected_slaves"@) is Some
    &&& number_field(f, "pubsub_channels"@) is Some
}

/// What one server told of itself.
#[derive(Clone, Debug)]
pub struct RedisInfo {
    pub addr: Endpoint,
    pub redis_version: String,
    pub redis_mode: String,
    pub arch_bits: u64,
    pub gcc_version: String,
    pub os: String,
    pub connected_clients: u64,
    pub role: String,
    pub connected_slaves: u64,
    pub pubsub_channels: u64,
    pub db0: String,
    pub db1: String,
}

/// `r` is the record of the server at `addr` whose reply had the fields `f`:
/// optional texts fall back to `"unknown"`, partition summaries to `""`.
pub open spec fn describes(r: RedisInfo, addr: Seq<char>, f: Map<Seq<char>, Seq<char>>) -> bool {
    &&& r.addr@ == addr
    &&& r.redis_version@ == f["redis_version"@]
    &&& r.redis_mode@ == text_or(f, "redis_mode"@, "unknown"@)
    &&& Some(r.arch_bits) == number_field(f, "arch_bits"@)
    &&& r.gcc_version@ == text_or(f, "gcc_version"@, "unknown"@)
    &&& r.os@ == text_or(f, "os"@, "unknown"@)
    &&& Some(r.connected_clients) == number_field(f, "connected_clients"@)
    &&& r.role@ == f["role"@]
    &&& Some(r.connected_slaves) == number_field(f, "connected_slaves"@)
    &&& Some(r.pubsub_channels) == number_field(f, "pubsub_channels"@)
    &&& r.db0@ == text_or(f, "db0"@, ""@)
    &&& r.db1@ == text_or(f, "db1"@, ""@)
}

fn text_or_else(d: &redis::InfoDict, key: &str, fallback: &str) -> (r: String)
    ensures
        r@ == text_or(info_fields(*d), key@, fallback@),
{
    match info_text(d, key) {
        Some(v) => v,
        None => String::from_str(fallback),
    }
}

/// The record of the server at `addr` from its INFO reply, or `None` where a
/// mandatory field is missing or unreadable.
pub fn describe(addr: &Endpoint, info: &redis::InfoDict) -> (r: Option<RedisInfo>)
    ensures
        r is Some <==> has_mandatory(info_fields(*info)),
        r is Some ==> describes(r->0, addr@, info_fields(*info)),
{
    let redis_version = match info_text(info, "redis_version") {
        Some(v) => v,
        None => return None,
    };
    let arch_bits = match info_number(info, "arch_bits") {
        Some(v) => v,
        None => return None,
    };
    let connected_clients = match info_number(info, "connected_clients") {
        Some(v) => v,
        None => return None,
    };
    let role = match info_text(info, "role") {
        Some(v) => v,
        None => return None,
    };
    let connected_slaves = match info_number(info, "connected_slaves") {
        Some(v) => v,
        None => return None,
    };
    let pubsub_channels = match info_number(info, "pubsub_channels") {
        Some(v) => v,
        None => return None,
    };
    Some(RedisInfo {
        addr: addr.duplicate(),
        redis_version,
        redis_mode: text_or_else(info, "redis_mode", "unknown"),
        arch_bits,
        gcc_version: text_or_else(info, "gcc_version", "unknown"),
        os: text_or_else(info, "os", "unknown"),
        connected_clients,
        role,
        connected_slaves,
        pubsub_channels,
        db0: text_or_else(info, "db0", ""),
        db1: text_or_else(info, "db1", ""),
    })
}

/// Which replies give a record.
pub open spec fn answered(replies: Seq<Option<redis::InfoDict>>) -> Seq<bool> {
    replies.map_values(|o: Option<redis::InfoDict>| gives_record(o))
}

/// The identities of a sequence of records.
pub open spec fn record_addrs(s: Seq<RedisInfo>) -> Seq<Seq<char>> {
    s.map_values(|r: RedisInfo| r.addr@)
}

/// The reply gives a record.
pub open spec fn gives_record(reply: Option<redis::InfoDict>) -> bool {
    reply is Some && has_mandatory(info_fields(reply->0))
}

/// The positions, in order, of the first `k` replies that give a record.
pub open spec fn answering(replies: Seq<Option<redis::InfoDict>>, k: int) -> Seq<int>
    decreases k,
{
    if k <= 0 {
        Seq::<int>::empty()
    } else {
        let rest = answering(replies, k - 1);
        if gives_record(replies[k - 1]) {
            rest.push(k - 1)
        } else {
            rest
        }
    }
}

/// The metadata stage: a record for each candidate whose INFO reply came
/// (`replies[i]` is that of `candidates[i]`) and holds the mandatory fields.
pub fn described(candidates: &Vec<Endpoint>, replies: &Vec<Option<redis::InfoDict>>) -> (r: Vec<RedisInfo>)
    requires
        replies@.len() == candidates@.len(),
    ensures
        record_addrs(r@) == kept(addrs(candidates@), answered(replies@)),
        r@.len() <= candidates@.len(),
        r@.len() == answering(replies@, replies@.len() as int).len(),
        forall|j: int| 0 <= j < r@.len() ==> {
            let i = #[trigger] answering(replies@, replies@.len() as int)[j];
            0 <= i < candidates@.len() && replies@[i] is Some && describes(r@[j], candidates@[i]@, info_fields(replies@[i]->0))
        },
{
    let ghost a = addrs(candidates@);
    let ghost pass = answered(replies@);
    let mut out: Vec<RedisInfo> = Vec::new();
    let mut i: usize = 0;
    while i < candidates.len()
        invariant
            replies@.len() == candidates@.len(),
            a == addrs(candidates@),
            pass == answered(replies@),
            i <= candidates@.len(),
            record_addrs(out@) == kept(a.subrange(0, i as int), pass.subrange(0, i as int)),
            out@.len() == answering(replies@, i as int).len(),
            forall|j: int| 0 <= j < out@.len() ==> {
                let k = #[trigger] answering(replies@, i as int)[j];
                0 <= k < i && replies@[k] is Some && describes(out@[j], candidates@[k]@, info_fields(replies@[k]->0))
            },
        decreases candidates.len() - i,
    {
        assert(a.subrange(0, i as int + 1).drop_last() =~= a.subrange(0, i as int));
        assert(pass.subrange(0, i as int + 1).subrange(0, i as int) =~= pass.subrange(0, i as int));
        assert(a.subrange(0, i as int + 1).last() == candidates@[i as int]@);
        let ghost ans = answering(replies@, i as int);
        match &replies[i] {
            Some(info) => {
                match describe(&candidates[i], info) {
                    Some(rec) => {
                        let ghost before = out@;
                        out.push(rec);
                        assert(record_addrs(out@) =~= record_addrs(before).push(candidates@[i as int]@));
                        assert(answering(replies@, i as int + 1) == ans.push(i as int));
                        assert forall|j: int| 0 <= j < out@.len() implies {
                            let k = #[trigger] answering(replies@, i as int + 1)[j];
                            0 <= k < i + 1 && replies@[k] is Some && describes(out@[j], candidates@[k]@, info_fields(replies@[k]->0))
                        } by {
                            if j < before.len() {
                                assert(out@[j] == before[j]);
                                assert(answering(replies@, i as int + 1)[j] == ans[j]);
                            } else {
                                assert(answering(replies@, i as int + 1)[j] == i as int);
                            }
                        }
                    },
                    None => {
                        assert(answering(replies@, i as int + 1) == ans);
                    },
                }
            },
            None => {
                assert(answering(replies@, i as int + 1) == ans);
            },
        }
        i = i + 1;
    }
    assert(a.subrange(0, i as int) =~= a);
    assert(pass.subrange(0, i as int) =~= pass);
    proof {
        lemma_records_entered(candidates@, replies@, out@);
    }
    out
}

/// Every record that the metadata stage gives is of a candidate that entered
/// it, and there are no more records than candidates.
pub proof fn lemma_records_entered(
    candidates: Seq<Endpoint>,
    replies: Seq<Option<redis::InfoDict>>,
    records: Seq<RedisInfo>,
)
    requires
        replies.len() == candidates.len(),
        record_addrs(records) == kept(addrs(candidates), answered(replies)),
    ensures
        records.len() <= candidates.len(),
        forall|j: int| 0 <= j < records.len() ==> addrs(candidates).contains(#[trigger] records[j].addr@),
{
    lemma_stage_narrows(addrs(candidates), answered(replies));
    assert forall|j: int| 0 <= j < records.len() implies addrs(candidates).contains(#[trigger] records[j].addr@) by {
        assert(record_addrs(records)[j] == records[j].addr@);
    }
}

} // verus!
