use vstd::prelude::*;

use crate::text::{decimal, push_decimal};

verus! {

/// How long a fetched page may be served, in seconds: twelve hours.
pub const TTL: u64 = 43200;

/// A page fetched at `timestamp` is fresh at `now` when it is younger than the TTL.
/// A page without a timestamp is never fresh.
pub open spec fn fresh_at(timestamp: Option<u64>, now: u64) -> bool {
    match timestamp {
        Some(t) => now - t < TTL,
        None => false,
    }
}

/// Whether a page fetched at `timestamp` may be served at `now`.
pub fn is_fresh(timestamp: Option<u64>, now: u64) -> (r: bool)
    ensures
        r == fresh_at(timestamp, now),
{
    match timestamp {
        Some(t) => t >= now || now - t < TTL,
        None => false,
    }
}

/// One second past the TTL a page is stale; one second before it, fresh.
pub proof fn lemma_staleness_boundary(now: u64)
    requires
        now > TTL,
    ensures
        !fresh_at(Some((now - TTL - 1) as u64), now),
        fresh_at(Some((now - TTL + 1) as u64), now),
{
}

/// The file that holds the cached page of the query with fingerprint `fp`.
pub open spec fn cache_path_of(fp: u64) -> Seq<char> {
    "./cache/"@ + decimal(fp as nat) + ".json"@
}

/// The path of the cache file for fingerprint `fp`.
pub fn cache_path(fp: u64) -> (r: String)
    ensures
        r@ == cache_path_of(fp),
{
    let mut s = String::from_str("./cache/");
    push_decimal(&mut s, fp);
    s.append(".json");
    s
}

} // verus!
