//! The keys and the order of the records in the Redis store.

use vstd::prelude::*;
use crate::db::service::order_entries;
use crate::db::service::records_view;
use crate::db::service::sorted_by_uri;
use crate::db::service::uris_descend;
use crate::utils::gazette::joined;
use crate::utils::gazette::Gazette;
use crate::utils::gazette::DISCARDED_PREFIX;
use crate::utils::gazette::FLAGGED_PREFIX;

verus! {

/// The keys of the records that are listed: those of the flagged notices.
pub const LISTED_KEYS: &'static str = "flagged:*";

/// The store that keeps the records in Redis.
#[derive(Clone, Copy, Debug)]
pub struct RedisProvider;

impl RedisProvider {
    /// The key that is looked up for `id` in the class with the prefix
    /// `prefix`.
    pub fn entry_key(prefix: &str, id: &str) -> (r: String)
        ensures
            r@ == prefix@ + id@,
    {
        joined(prefix, id)
    }

    /// The two keys under which a record for `id` may be held: that of
    /// the flagged and that of the discarded notices.
    pub fn lookup_keys(id: &str) -> (r: (String, String))
        ensures
            r.0@ == FLAGGED_PREFIX@ + id@,
            r.1@ == DISCARDED_PREFIX@ + id@,
    {
        (joined(FLAGGED_PREFIX, id), joined(DISCARDED_PREFIX, id))
    }

    /// Whether a record is held, given whether one is held in each class.
    pub fn held(flagged_exists: bool, discarded_exists: bool) -> (r: bool)
        ensures
            r == (flagged_exists || discarded_exists),
    {
        flagged_exists || discarded_exists
    }

    /// The records in the order in which they are listed: descending by
    /// address.
    pub fn listed(entries: &Vec<Gazette>) -> (r: Vec<Gazette>)
        ensures
            records_view(r@) == sorted_by_uri(records_view(entries@)),
            uris_descend(records_view(r@)),
    {
        order_entries(entries)
    }
}

} // verus!
