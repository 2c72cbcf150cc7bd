//! Encoding of the records this node publishes to, and the queries it
//! issues against, the shared directory: key `"model:" + model_id`, value
//! `"<peer_id>|<ip>|<port>"`. The encoding is exact for interoperability
//! between nodes.

use vstd::prelude::*;
use vstd::string::StringExecFns;

use crate::edge::{json_string_list, parse_string_list};
use crate::json::{dec_of, push_dec};

verus! {

/// One record to publish: a directory key and its value.
pub struct DhtRecord {
    pub key: String,
    pub value: String,
}

/// The directory key under which a model identifier is published.
pub open spec fn key_of(model: Seq<char>) -> Seq<char> {
    "model:"@ + model
}

/// The address descriptor this node publishes: identity, address and
/// service port, separated by `|`.
pub open spec fn descriptor_of(pid: Seq<char>, ip: Seq<char>, port: u16) -> Seq<char> {
    pid + seq!['|'] + ip + seq!['|'] + dec_of(port as nat)
}

/// The full publication payload for an announce list: one record per model
/// identifier, in list order, all carrying this node's descriptor.
pub open spec fn publications(
    models: Seq<Seq<char>>,
    pid: Seq<char>,
    ip: Seq<char>,
    port: u16,
) -> Seq<(Seq<char>, Seq<char>)> {
    Seq::new(models.len(), |i: int| (key_of(models[i]), descriptor_of(pid, ip, port)))
}

/// The key/value pairs of a record list.
pub open spec fn recs_view(r: Seq<DhtRecord>) -> Seq<(Seq<char>, Seq<char>)> {
    r.map(|i: int, d: DhtRecord| (d.key@, d.value@))
}

/// The directory key for one model identifier.
pub fn dht_key_for(model: &str) -> (r: String)
    ensures
        r@ == key_of(model@),
{
    let mut out = String::from_str("model:");
    out.append(model);
    out
}

/// This node's address descriptor.
pub fn encode_descriptor(pid: &str, ip: &str, port: u16) -> (r: String)
    ensures
        r@ == descriptor_of(pid@, ip@, port),
{
    let mut out = String::from_str(pid);
    out.push('|');
    out.append(ip);
    out.push('|');
    push_dec(&mut out, port as u64);
    proof {
        assert(out@ =~= descriptor_of(pid@, ip@, port));
    }
    out
}

/// The records one announce tick publishes for `models`.
pub fn announce_publications(models: &Vec<String>, pid: &str, ip: &str, port: u16) -> (r: Vec<
    DhtRecord,
>)
    ensures
        recs_view(r@) == publications(models.deep_view(), pid@, ip@, port),
{
    let mut out: Vec<DhtRecord> = Vec::new();
    let n: usize = models.len();
    let mut i: usize = 0;
    while i < n
        invariant
            i <= n,
            n == models@.len(),
            out@.len() == i,
            forall|j: int| 0 <= j < i ==> (#[trigger] out@[j]).key@ == key_of(models@[j]@)
                && out@[j].value@ == descriptor_of(pid@, ip@, port),
        decreases n - i,
    {
        let key = dht_key_for(models[i].as_str());
        let value = encode_descriptor(pid, ip, port);
        out.push(DhtRecord { key, value });
        i = i + 1;
    }
    proof {
        assert(recs_view(out@) =~= publications(models.deep_view(), pid@, ip@, port));
    }
    out
}

/// One announce tick, from the raw request-file text: parse the list and
/// build the publication payload; fail exactly when the text does not parse.
pub fn announce_from_text(text: &str, pid: &str, ip: &str, port: u16) -> (r: Option<
    Vec<DhtRecord>,
>)
    ensures
        match r {
            Some(v) => json_string_list(text@) matches Some(list) && recs_view(v@)
                == publications(list, pid@, ip@, port),
            None => json_string_list(text@) is None,
        },
{
    match parse_string_list(text) {
        Some(models) => Some(announce_publications(&models, pid, ip, port)),
        None => None,
    }
}

/// The directory keys one lookup tick queries for `models`.
pub fn lookup_keys(models: &Vec<String>) -> (r: Vec<String>)
    ensures
        r@.len() == models@.len(),
        forall|j: int| 0 <= j < r@.len() ==> (#[trigger] r@[j])@ == key_of(models@[j]@),
{
    let mut out: Vec<String> = Vec::new();
    let n: usize = models.len();
    let mut i: usize = 0;
    while i < n
        invariant
            i <= n,
            n == models@.len(),
            out@.len() == i,
            forall|j: int| 0 <= j < i ==> (#[trigger] out@[j])@ == key_of(models@[j]@),
        decreases n - i,
    {
        out.push(dht_key_for(models[i].as_str()));
        i = i + 1;
    }
    out
}

/// One lookup tick, from the raw request-file text: parse the list and
/// build the query keys; fail exactly when the text does not parse.
pub fn lookup_keys_from_text(text: &str) -> (r: Option<Vec<String>>)
    ensures
        match r {
            Some(v) => json_string_list(text@) matches Some(list) && v.deep_view() == list.map(
                |i: int, m: Seq<char>| key_of(m),
            ),
            None => json_string_list(text@) is None,
        },
{
    match parse_string_list(text) {
        Some(models) => {
            let keys = lookup_keys(&models);
            proof {
                assert(keys.deep_view() =~= models.deep_view().map(
                    |i: int, m: Seq<char>| key_of(m),
                ));
            }
            Some(keys)
        },
        None => None,
    }
}

/// Announce processing is idempotent: two publication payloads built from
/// the same request list and the same local descriptor are equal.
pub proof fn lemma_announce_idempotent(
    r1: Seq<(Seq<char>, Seq<char>)>,
    r2: Seq<(Seq<char>, Seq<char>)>,
    models: Seq<Seq<char>>,
    pid: Seq<char>,
    ip: Seq<char>,
    port: u16,
)
    requires
        r1 == publications(models, pid, ip, port),
        r2 == publications(models, pid, ip, port),
    ensures
        r1 == r2,
{
}

} // verus!
