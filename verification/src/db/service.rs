//! What a store of records is asked and what it may answer.

use vstd::prelude::*;
use crate::error::PipelineError;
use crate::utils::gazette::Gazette;
use crate::utils::gazette::GazetteView;
use crate::utils::text::lemma_text_before_is_one_way;
use crate::utils::text::lemma_text_order_is_transitive;
use crate::utils::text::stands_before;
use crate::utils::text::text_before;

verus! {

/// The records `records` as plain values.
pub open spec fn records_view(records: Seq<Gazette>) -> Seq<GazetteView> {
    Seq::new(records.len(), |i: int| records[i]@)
}

/// The answer to a request for all records as plain values.
pub open spec fn list_view(answer: Result<Vec<Gazette>, PipelineError>) -> Result<
    Seq<GazetteView>,
    PipelineError,
> {
    match answer {
        Ok(records) => Ok(records_view(records@)),
        Err(e) => Err(e),
    }
}

/// Whether the addresses of `records` descend: none stands before the
/// address of a record that comes earlier.
pub open spec fn uris_descend(records: Seq<GazetteView>) -> bool {
    forall|i: int, j: int|
        0 <= i < j < records.len() ==> !text_before(records[i].uri, records[j].uri)
}

/// `sorted` with `x` put in behind every record whose address does not
/// stand before that of `x`.
pub open spec fn insert_by_uri(sorted: Seq<GazetteView>, x: GazetteView) -> Seq<GazetteView>
    decreases sorted.len(),
{
    if sorted.len() > 0 && text_before(sorted.last().uri, x.uri) {
        insert_by_uri(sorted.drop_last(), x).push(sorted.last())
    } else {
        sorted.push(x)
    }
}

/// The records `s` in descending order of their addresses; records with
/// the same address keep the order they have in `s`.
pub open spec fn sorted_by_uri(s: Seq<GazetteView>) -> Seq<GazetteView>
    decreases s.len(),
{
    if s.len() == 0 {
        Seq::empty()
    } else {
        insert_by_uri(sorted_by_uri(s.drop_last()), s.last())
    }
}

/// A store of records, each under a key.
pub trait DatabaseProvider: Sized {
    /// Whether the store may give `answer` when it is asked whether it
    /// holds a record for `id`. A store that says nothing of itself may
    /// give any answer.
    open spec fn may_find(&self, id: Seq<char>, answer: Result<bool, PipelineError>) -> bool {
        true
    }

    /// Whether the store may give `answer` and be `after` when it is asked
    /// to hold `value` under the key `id`.
    open spec fn may_store(
        &self,
        id: Seq<char>,
        value: GazetteView,
        after: Self,
        answer: Result<bool, PipelineError>,
    ) -> bool {
        true
    }

    /// Whether the store may give `answer` when it is asked for its
    /// records.
    open spec fn may_list(&self, answer: Result<Seq<GazetteView>, PipelineError>) -> bool {
        true
    }

    /// Whether the store holds a record for `id`.
    fn has_entry(&self, id: &str) -> (r: Result<bool, PipelineError>)
        ensures
            self.may_find(id@, r),
    ;

    /// Holds `value` under the key `id` from now on, in place of what was
    /// there.
    fn create_entry(&mut self, id: &str, value: &Gazette) -> (r: Result<bool, PipelineError>)
        ensures
            old(self).may_store(id@, value@, *final(self), r),
    ;

    /// The records of the store, in descending order of their addresses.
    fn fetch_entries(&self) -> (r: Result<Vec<Gazette>, PipelineError>)
        ensures
            self.may_list(list_view(r)),
            r is Ok ==> uris_descend(records_view(r->Ok_0@)),
    ;
}

/// A store as the pipeline uses it.
pub struct DatabaseConnection<T> where T: DatabaseProvider {
    pub provider: T,
}

impl<T> DatabaseConnection<T> where T: DatabaseProvider {
    /// Whether the store holds a record for `id`: the store is asked with
    /// `id` as it stands, and its answer comes back as it is.
    pub fn has_entry(&self, id: &str) -> (r: Result<bool, PipelineError>)
        ensures
            self.provider.may_find(id@, r),
    {
        self.provider.has_entry(id)
    }

    /// Has the store hold `value` under the key `id`.
    pub fn create_entry(&mut self, id: &str, value: &Gazette) -> (r: Result<bool, PipelineError>)
        ensures
            old(self).provider.may_store(id@, value@, final(self).provider, r),
    {
        self.provider.create_entry(id, value)
    }

    /// The records of the store, in descending order of their addresses.
    pub fn fetch_entries(&self) -> (r: Result<Vec<Gazette>, PipelineError>)
        ensures
            self.provider.may_list(list_view(r)),
            r is Ok ==> uris_descend(records_view(r->Ok_0@)),
    {
        self.provider.fetch_entries()
    }
}

proof fn lemma_insert_place(sorted: Seq<GazetteView>, x: GazetteView) -> (k: int)
    ensures
        0 <= k <= sorted.len(),
        insert_by_uri(sorted, x) == sorted.insert(k, x),
        forall|j: int| k <= j < sorted.len() ==> text_before((#[trigger] sorted[j]).uri, x.uri),
        k > 0 ==> !text_before(sorted[k - 1].uri, x.uri),
    decreases sorted.len(),
{
    if sorted.len() > 0 && text_before(sorted.last().uri, x.uri) {
        let front = sorted.drop_last();
        let k = lemma_insert_place(front, x);
        assert(front.insert(k, x).push(sorted.last()) =~= sorted.insert(k, x));
        assert forall|j: int| k <= j < sorted.len() implies text_before(
            (#[trigger] sorted[j]).uri,
            x.uri,
        ) by {
            if j < sorted.len() - 1 {
                assert(front[j] == sorted[j]);
            }
        }
        if k > 0 {
            assert(front[k - 1] == sorted[k - 1]);
        }
        k
    } else {
        assert(sorted.push(x) =~= sorted.insert(sorted.len() as int, x));
        sorted.len() as int
    }
}

proof fn lemma_insert_keeps_order(sorted: Seq<GazetteView>, x: GazetteView)
    requires
        uris_descend(sorted),
    ensures
        uris_descend(insert_by_uri(sorted, x)),
{
    let k = lemma_insert_place(sorted, x);
    let next = sorted.insert(k, x);
    assert forall|i: int, j: int| 0 <= i < j < next.len() implies !text_before(
        next[i].uri,
        next[j].uri,
    ) by {
        if j == k {
            assert(next[i] == sorted[i]);
            if i < k - 1 {
                lemma_text_order_is_transitive(sorted[i].uri, sorted[k - 1].uri, x.uri);
            }
        } else if i == k {
            assert(next[j] == sorted[j - 1]);
            lemma_text_before_is_one_way(sorted[j - 1].uri, x.uri);
        } else {
            let from_i = if i < k {
                i
            } else {
                i - 1
            };
            let from_j = if j < k {
                j
            } else {
                j - 1
            };
            assert(next[i] == sorted[from_i]);
            assert(next[j] == sorted[from_j]);
        }
    }
}

/// Sorting leaves the addresses in descending order.
pub proof fn lemma_sorted_uris_descend(s: Seq<GazetteView>)
    ensures
        uris_descend(sorted_by_uri(s)),
        sorted_by_uri(s).len() == s.len(),
    decreases s.len(),
{
    if s.len() > 0 {
        lemma_sorted_uris_descend(s.drop_last());
        lemma_insert_keeps_order(sorted_by_uri(s.drop_last()), s.last());
        let k = lemma_insert_place(sorted_by_uri(s.drop_last()), s.last());
    }
}

/// Sorting rearranges the records and neither adds nor drops one.
pub proof fn lemma_sorted_by_uri_permutes(s: Seq<GazetteView>)
    ensures
        sorted_by_uri(s).to_multiset() == s.to_multiset(),
    decreases s.len(),
{
    broadcast use vstd::seq_lib::to_multiset_build;

    if s.len() == 0 {
        assert(sorted_by_uri(s) == s);
    } else {
        let front = s.drop_last();
        lemma_sorted_by_uri_permutes(front);
        let k = lemma_insert_place(sorted_by_uri(front), s.last());
        vstd::seq_lib::to_multiset_insert(sorted_by_uri(front), k, s.last());
        assert(s == front.push(s.last()));
    }
}

/// The records in descending order of their addresses, records with the
/// same address in the order in which they came.
pub fn order_entries(entries: &Vec<Gazette>) -> (sorted: Vec<Gazette>)
    ensures
        records_view(sorted@) == sorted_by_uri(records_view(entries@)),
        uris_descend(records_view(sorted@)),
{
    let mut sorted: Vec<Gazette> = Vec::new();
    let mut i: usize = 0;
    proof {
        assert(records_view(sorted@) =~= sorted_by_uri(records_view(entries@).take(0)));
    }
    while i < entries.len()
        invariant
            i <= entries@.len(),
            records_view(sorted@) == sorted_by_uri(records_view(entries@).take(i as int)),
            sorted@.len() == i,
        decreases entries@.len() - i,
    {
        let record = entries[i].clone();
        let ghost before = records_view(sorted@);
        proof {
            lemma_sorted_uris_descend(records_view(entries@).take(i as int));
        }
        let ghost place = lemma_insert_place(before, record@);
        let mut k: usize = sorted.len();
        while k > 0 && stands_before(sorted[k - 1].uri.as_str(), record.uri.as_str())
            invariant
                place <= k <= sorted@.len(),
                0 <= place <= sorted@.len(),
                before == records_view(sorted@),
                forall|j: int|
                    place <= j < before.len() ==> text_before(
                        (#[trigger] before[j]).uri,
                        record@.uri,
                    ),
                place > 0 ==> !text_before(before[place - 1].uri, record@.uri),
            decreases k,
        {
            proof {
                assert(before[k - 1] == sorted@[k - 1]@);
            }
            k = k - 1;
        }
        proof {
            if k > place {
                assert(before[k - 1] == sorted@[k - 1]@);
                assert(text_before(before[k - 1].uri, record@.uri));
            }
            assert(k == place);
            let next = records_view(entries@).take(i + 1);
            assert(next.drop_last() == records_view(entries@).take(i as int));
            assert(next.last() == record@);
        }
        sorted.insert(k, record);
        proof {
            assert(records_view(sorted@) =~= before.insert(place, record@));
        }
        i = i + 1;
    }
    proof {
        assert(records_view(entries@).take(entries@.len() as int) == records_view(entries@));
        lemma_sorted_uris_descend(records_view(entries@));
    }
    sorted
}

} // verus!
