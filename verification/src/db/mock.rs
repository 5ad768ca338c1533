//! A store of records in memory, for test harnesses.

use vstd::prelude::*;
use crate::db::service::order_entries;
use crate::db::service::records_view;
use crate::db::service::sorted_by_uri;
use crate::db::service::DatabaseProvider;
use crate::error::PipelineError;
use crate::utils::gazette::joined;
use crate::utils::gazette::Gazette;
use crate::utils::gazette::GazetteView;
use crate::utils::gazette::DISCARDED_PREFIX;
use crate::utils::gazette::FLAGGED_PREFIX;

verus! {

/// A store that holds its records in memory, in the order in which their
/// keys were first used.
#[derive(Debug)]
pub struct MockDatabaseProvider {
    storage: Vec<(String, Gazette)>,
}

/// The keys and records of `storage` as plain values.
pub open spec fn storage_view(storage: Seq<(String, Gazette)>) -> Seq<(Seq<char>, GazetteView)> {
    Seq::new(storage.len(), |i: int| (storage[i].0@, storage[i].1@))
}

impl View for MockDatabaseProvider {
    type V = Seq<(Seq<char>, GazetteView)>;

    closed spec fn view(&self) -> Seq<(Seq<char>, GazetteView)> {
        storage_view(self.storage@)
    }
}

/// The first place from `from` on at which `entries` hold the key `id`.
pub open spec fn place_of(entries: Seq<(Seq<char>, GazetteView)>, id: Seq<char>, from: int)
    -> Option<int>
    decreases entries.len() - from,
{
    if from < 0 || from >= entries.len() {
        None
    } else if entries[from].0 == id {
        Some(from)
    } else {
        place_of(entries, id, from + 1)
    }
}

/// `entries` with `value` under the key `id`: in the place of what was
/// under that key, or behind all others where the key is new.
pub open spec fn upserted(
    entries: Seq<(Seq<char>, GazetteView)>,
    id: Seq<char>,
    value: GazetteView,
) -> Seq<(Seq<char>, GazetteView)> {
    match place_of(entries, id, 0) {
        Some(place) => entries.update(place, (id, value)),
        None => entries.push((id, value)),
    }
}

/// Whether `entries` hold a record for `id`: under `id` itself, or under
/// `id` behind the prefix of either class.
pub open spec fn known(entries: Seq<(Seq<char>, GazetteView)>, id: Seq<char>) -> bool {
    ||| place_of(entries, id, 0) is Some
    ||| place_of(entries, FLAGGED_PREFIX@ + id, 0) is Some
    ||| place_of(entries, DISCARDED_PREFIX@ + id, 0) is Some
}

/// The records of `entries`, without their keys.
pub open spec fn records_of(entries: Seq<(Seq<char>, GazetteView)>) -> Seq<GazetteView> {
    Seq::new(entries.len(), |i: int| entries[i].1)
}

impl MockDatabaseProvider {
    /// A store that holds nothing.
    pub fn new() -> (r: Self)
        ensures
            r@ == Seq::<(Seq<char>, GazetteView)>::empty(),
    {
        let r = MockDatabaseProvider { storage: Vec::new() };
        proof {
            assert(r@ =~= Seq::<(Seq<char>, GazetteView)>::empty());
        }
        r
    }

    /// The number of records that the store holds.
    pub fn len(&self) -> (n: usize)
        ensures
            n == self@.len(),
    {
        self.storage.len()
    }

    fn find(&self, id: &String) -> (r: Option<usize>)
        ensures
            match r {
                Some(place) => place_of(self@, id@, 0) == Some(place as int) && place
                    < self.storage@.len(),
                None => place_of(self@, id@, 0) is None,
            },
    {
        let mut i: usize = 0;
        while i < self.storage.len()
            invariant
                i <= self.storage@.len(),
                place_of(self@, id@, 0) == place_of(self@, id@, i as int),
            decreases self.storage@.len() - i,
        {
            if self.storage[i].0 == *id {
                return Some(i);
            }
            i = i + 1;
        }
        None
    }
}

impl DatabaseProvider for MockDatabaseProvider {
    open spec fn may_find(&self, id: Seq<char>, answer: Result<bool, PipelineError>) -> bool {
        answer == Ok::<bool, PipelineError>(known(self@, id))
    }

    open spec fn may_store(
        &self,
        id: Seq<char>,
        value: GazetteView,
        after: Self,
        answer: Result<bool, PipelineError>,
    ) -> bool {
        answer == Ok::<bool, PipelineError>(true) && after@ == upserted(self@, id, value)
    }

    open spec fn may_list(&self, answer: Result<Seq<GazetteView>, PipelineError>) -> bool {
        answer == Ok::<Seq<GazetteView>, PipelineError>(sorted_by_uri(records_of(self@)))
    }

    fn has_entry(&self, id: &str) -> (r: Result<bool, PipelineError>) {
        let plain = id.to_owned();
        let flagged = joined(FLAGGED_PREFIX, id);
        let discarded = joined(DISCARDED_PREFIX, id);
        let found = self.find(&plain).is_some() || self.find(&flagged).is_some() || self.find(
            &discarded,
        ).is_some();
        Ok(found)
    }

    fn create_entry(&mut self, id: &str, value: &Gazette) -> (r: Result<bool, PipelineError>) {
        let key = id.to_owned();
        let record = value.clone();
        let ghost before = self@;
        match self.find(&key) {
            Some(place) => {
                self.storage.remove(place);
                self.storage.insert(place, (key, record));
                proof {
                    assert(self@ =~= before.update(place as int, (id@, value@)));
                }
            },
            None => {
                self.storage.push((key, record));
                proof {
                    assert(self@ =~= before.push((id@, value@)));
                }
            },
        }
        Ok(true)
    }

    fn fetch_entries(&self) -> (r: Result<Vec<Gazette>, PipelineError>) {
        let mut records: Vec<Gazette> = Vec::new();
        let mut i: usize = 0;
        while i < self.storage.len()
            invariant
                i <= self.storage@.len(),
                records@.len() == i,
                forall|k: int| 0 <= k < i ==> records@[k]@ == self.storage@[k].1@,
            decreases self.storage@.len() - i,
        {
            records.push(self.storage[i].1.clone());
            i = i + 1;
        }
        proof {
            assert(records_view(records@) =~= records_of(self@));
        }
        Ok(order_entries(&records))
    }
}

} // verus!
