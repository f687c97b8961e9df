//! A collection of records of one kind, searched and changed by criteria.
//!
//! A collection keeps its records in the order in which they were stored.
//! Whoever holds it mutably holds it alone, so a search followed by a change
//! through one `&mut` borrow cannot be interleaved with another writer.

use vstd::prelude::*;

verus! {

/// Why the store did not do what was asked.
#[derive(Debug, PartialEq, Eq, Clone, Copy, Structural)]
pub enum StoreError {
    /// An update found no record that met its criteria.
    NoMatch,
    /// The records could not be read or written.
    Io,
}

/// A record that can be copied out of a collection.
pub trait Record: Sized {
    /// A copy equal to the record.
    fn duplicate(&self) -> (copy: Self)
        ensures
            copy == *self,
    ;
}

/// A test that selects records of type `T`.
pub trait Criteria<T> {
    /// Whether the criteria select `record`.
    spec fn accepts(&self, record: T) -> bool;

    /// Decides whether the criteria select `record`.
    fn matches(&self, record: &T) -> (hit: bool)
        ensures
            hit == self.accepts(*record),
    ;
}

/// Criteria that select every record.
pub struct Everything;

impl<T> Criteria<T> for Everything {
    open spec fn accepts(&self, record: T) -> bool {
        true
    }

    fn matches(&self, record: &T) -> (hit: bool) {
        true
    }
}

/// What `criteria` select, as a predicate on records.
pub open spec fn predicate_of<T, C: Criteria<T>>(criteria: C) -> spec_fn(T) -> bool {
    |record: T| criteria.accepts(record)
}

/// The records that meet `wanted`, in their order.
pub open spec fn selected<T>(records: Seq<T>, wanted: spec_fn(T) -> bool) -> Seq<T> {
    records.filter(wanted)
}

/// Whether any record meets `wanted`.
pub open spec fn has_match<T>(records: Seq<T>, wanted: spec_fn(T) -> bool) -> bool {
    exists|i: int| 0 <= i < records.len() && wanted(#[trigger] records[i])
}

/// Whether `i` is the place of the first record that meets `wanted`.
pub open spec fn is_first_match<T>(records: Seq<T>, wanted: spec_fn(T) -> bool, i: int) -> bool {
    &&& 0 <= i < records.len()
    &&& wanted(records[i])
    &&& forall|k: int| 0 <= k < i ==> !wanted(#[trigger] records[k])
}

/// The place of the first record that meets `wanted`, where there is one.
pub open spec fn first_match<T>(records: Seq<T>, wanted: spec_fn(T) -> bool) -> int {
    choose|i: int| is_first_match(records, wanted, i)
}

/// The records after an update: the first record that meets `wanted` gives
/// way to `record`; where none meets it nothing changes.
pub open spec fn updated<T>(records: Seq<T>, record: T, wanted: spec_fn(T) -> bool) -> Seq<T> {
    if has_match(records, wanted) {
        records.update(first_match(records, wanted), record)
    } else {
        records
    }
}

/// The records after an update that falls back to an insert: the first
/// record that meets `wanted` gives way to `record`, or `record` is added at
/// the end.
pub open spec fn upserted<T>(records: Seq<T>, record: T, wanted: spec_fn(T) -> bool) -> Seq<T> {
    if has_match(records, wanted) {
        records.update(first_match(records, wanted), record)
    } else {
        records.push(record)
    }
}

/// The first element of a list, if it has one.
pub open spec fn first_of<T>(list: Seq<T>) -> Option<T> {
    if list.len() > 0 {
        Some(list[0])
    } else {
        None
    }
}

/// There is one first match at most, and `first_match` names it.
pub proof fn lemma_first_match_is<T>(records: Seq<T>, wanted: spec_fn(T) -> bool, i: int)
    requires
        is_first_match(records, wanted, i),
    ensures
        has_match(records, wanted),
        first_match(records, wanted) == i,
{
    let j = first_match(records, wanted);
    assert(is_first_match(records, wanted, j));
    if j < i {
        assert(!wanted(records[j]));
    }
    if i < j {
        assert(!wanted(records[i]));
    }
}

/// Where some record meets `wanted`, a first one does.
pub proof fn lemma_first_match_exists<T>(records: Seq<T>, wanted: spec_fn(T) -> bool)
    requires
        has_match(records, wanted),
    ensures
        is_first_match(records, wanted, first_match(records, wanted)),
{
    let i = choose|i: int| 0 <= i < records.len() && wanted(#[trigger] records[i]);
    lemma_first_match_upto(records, wanted, i);
}

/// At or below a record that meets `wanted` there is a first one.
proof fn lemma_first_match_upto<T>(records: Seq<T>, wanted: spec_fn(T) -> bool, i: int)
    requires
        0 <= i < records.len(),
        wanted(records[i]),
    ensures
        exists|j: int| is_first_match(records, wanted, j),
    decreases i,
{
    if forall|k: int| 0 <= k < i ==> !wanted(#[trigger] records[k]) {
        assert(is_first_match(records, wanted, i));
    } else {
        let k = choose|k: int| 0 <= k < i && wanted(#[trigger] records[k]);
        lemma_first_match_upto(records, wanted, k);
    }
}

/// Something is selected exactly where some record meets `wanted`.
pub proof fn lemma_selected_some<T>(records: Seq<T>, wanted: spec_fn(T) -> bool)
    ensures
        selected(records, wanted).len() > 0 <==> has_match(records, wanted),
{
    let found = selected(records, wanted);
    if found.len() > 0 {
        records.lemma_filter_pred(wanted, 0);
        assert(found.contains(found[0]));
        records.lemma_filter_contains_rev(wanted, found[0]);
        let i = choose|i: int| 0 <= i < records.len() && records[i] == found[0];
        assert(wanted(records[i]));
    }
    if has_match(records, wanted) {
        let i = choose|i: int| 0 <= i < records.len() && wanted(#[trigger] records[i]);
        records.lemma_filter_contains(wanted, i);
    }
}

/// A predicate that every record meets selects the whole list.
pub proof fn lemma_selected_all<T>(records: Seq<T>, wanted: spec_fn(T) -> bool)
    requires
        forall|i: int| 0 <= i < records.len() ==> wanted(#[trigger] records[i]),
    ensures
        selected(records, wanted) == records,
    decreases records.len(),
{
    reveal(Seq::filter);
    if records.len() > 0 {
        lemma_selected_all(records.drop_last(), wanted);
        assert(records.drop_last().push(records.last()) =~= records);
    }
}

/// The first of the selected records is the first record that meets
/// `wanted`.
pub proof fn lemma_first_selected<T>(records: Seq<T>, wanted: spec_fn(T) -> bool)
    requires
        has_match(records, wanted),
    ensures
        selected(records, wanted).len() > 0,
        selected(records, wanted)[0] == records[first_match(records, wanted)],
{
    lemma_first_match_exists(records, wanted);
    let i = first_match(records, wanted);
    let before = records.take(i);
    let after = records.skip(i + 1);
    assert(!has_match(before, wanted)) by {
        if has_match(before, wanted) {
            let k = choose|k: int| 0 <= k < before.len() && wanted(#[trigger] before[k]);
            assert(before[k] == records[k]);
        }
    }
    lemma_selected_some(before, wanted);
    assert(selected(before, wanted) =~= Seq::<T>::empty());
    before.lemma_filter_push(records[i], wanted);
    assert(records =~= before.push(records[i]) + after);
    Seq::filter_distributes_over_add(before.push(records[i]), after, wanted);
}

/// Replacing the first record that meets `wanted` by another that meets it
/// replaces the first of the selected records and leaves the others alone.
pub proof fn lemma_selected_after_replacing<T>(
    records: Seq<T>,
    wanted: spec_fn(T) -> bool,
    i: int,
    record: T,
)
    requires
        is_first_match(records, wanted, i),
        wanted(record),
    ensures
        selected(records, wanted).len() > 0,
        selected(records.update(i, record), wanted) == selected(records, wanted).update(0, record),
{
    let before = records.take(i);
    let after = records.skip(i + 1);
    let changed = records.update(i, record);
    assert(!has_match(before, wanted)) by {
        if has_match(before, wanted) {
            let k = choose|k: int| 0 <= k < before.len() && wanted(#[trigger] before[k]);
            assert(before[k] == records[k]);
        }
    }
    lemma_selected_some(before, wanted);
    assert(selected(before, wanted) =~= Seq::<T>::empty());
    before.lemma_filter_push(records[i], wanted);
    before.lemma_filter_push(record, wanted);
    assert(records =~= before.push(records[i]) + after);
    assert(changed =~= before.push(record) + after);
    Seq::filter_distributes_over_add(before.push(records[i]), after, wanted);
    Seq::filter_distributes_over_add(before.push(record), after, wanted);
    assert(selected(changed, wanted) =~= selected(records, wanted).update(0, record));
}

/// Storing a record under criteria that it meets leaves exactly one record
/// that meets them, the stored one, where the collection held at most one
/// such record before.
pub proof fn lemma_upsert_leaves_one<T>(records: Seq<T>, wanted: spec_fn(T) -> bool, record: T)
    requires
        wanted(record),
        selected(records, wanted).len() <= 1,
    ensures
        selected(upserted(records, record, wanted), wanted) == seq![record],
{
    lemma_selected_some(records, wanted);
    if has_match(records, wanted) {
        lemma_first_match_exists(records, wanted);
        lemma_selected_after_replacing(records, wanted, first_match(records, wanted), record);
        assert(selected(records, wanted).update(0, record) =~= seq![record]);
    } else {
        records.lemma_filter_push(record, wanted);
        assert(selected(records, wanted) =~= Seq::<T>::empty());
        assert(selected(records, wanted).push(record) =~= seq![record]);
    }
}

/// Storing one record and then another under criteria that both meet leaves
/// the second in the place of the first: where the collection held at most
/// one such record before, it holds exactly one afterwards, the second.
pub proof fn lemma_upsert_twice<T>(
    records: Seq<T>,
    wanted: spec_fn(T) -> bool,
    first: T,
    second: T,
)
    requires
        wanted(first),
        wanted(second),
        selected(records, wanted).len() <= 1,
    ensures
        upserted(upserted(records, first, wanted), second, wanted) == upserted(
            records,
            second,
            wanted,
        ),
        selected(upserted(upserted(records, first, wanted), second, wanted), wanted) == seq![
            second,
        ],
{
    let once = upserted(records, first, wanted);
    lemma_selected_some(records, wanted);
    if has_match(records, wanted) {
        lemma_first_match_exists(records, wanted);
        let i = first_match(records, wanted);
        assert(once == records.update(i, first));
        assert(is_first_match(once, wanted, i)) by {
            assert forall|k: int| 0 <= k < i implies !wanted(#[trigger] once[k]) by {
                assert(once[k] == records[k]);
            }
        }
        lemma_first_match_is(once, wanted, i);
        assert(once.update(i, second) =~= records.update(i, second));
        lemma_selected_after_replacing(records, wanted, i, second);
        assert(selected(records, wanted).update(0, second) =~= seq![second]);
    } else {
        let end = records.len() as int;
        assert(is_first_match(once, wanted, end)) by {
            assert forall|k: int| 0 <= k < end implies !wanted(#[trigger] once[k]) by {
                assert(once[k] == records[k]);
            }
        }
        lemma_first_match_is(once, wanted, end);
        assert(once.update(end, second) =~= records.push(second));
        records.lemma_filter_push(second, wanted);
        assert(selected(records, wanted) =~= Seq::<T>::empty());
        assert(selected(records, wanted).push(second) =~= seq![second]);
    }
}

/// The records of one kind, in the order in which they were stored.
pub struct Collection<T> {
    records: Vec<T>,
}

impl<T> View for Collection<T> {
    type V = Seq<T>;

    closed spec fn view(&self) -> Seq<T> {
        self.records@
    }
}

impl<T: Record> Collection<T> {
    /// A collection without records.
    pub fn new() -> (empty: Self)
        ensures
            empty@ == Seq::<T>::empty(),
    {
        Collection { records: Vec::new() }
    }

    /// A collection of the given records, in their order.
    pub fn from_records(records: Vec<T>) -> (collection: Self)
        ensures
            collection@ == records@,
    {
        Collection { records }
    }

    /// The number of records.
    pub fn len(&self) -> (n: usize)
        ensures
            n == self@.len(),
    {
        self.records.len()
    }

    /// Copies of all records that `criteria` select, in storage order. No
    /// selected record gives the empty list.
    pub fn find<C: Criteria<T>>(&self, criteria: &C) -> (found: Vec<T>)
        ensures
            found@ == selected(self@, predicate_of(*criteria)),
    {
        let ghost pred = predicate_of(*criteria);
        let mut found: Vec<T> = Vec::new();
        let mut i: usize = 0;
        while i < self.records.len()
            invariant
                i <= self.records.len(),
                pred == predicate_of(*criteria),
                found@ == self.records@.take(i as int).filter(pred),
            decreases self.records.len() - i,
        {
            let record = &self.records[i];
            proof {
                assert(self.records@.take(i + 1).drop_last() =~= self.records@.take(i as int));
                reveal(Seq::filter);
            }
            if criteria.matches(record) {
                found.push(record.duplicate());
            }
            i += 1;
        }
        assert(self.records@.take(i as int) =~= self.records@);
        found
    }

    /// Hands out the first of a list of found records.
    pub fn first(found: Vec<T>) -> (first: Option<T>)
        ensures
            first == first_of(found@),
    {
        let mut found = found;
        if found.len() > 0 {
            Some(found.swap_remove(0))
        } else {
            None
        }
    }

    /// Adds `record` after the records already stored. Nothing is looked
    /// for and nothing replaced: whoever wants no duplicates searches first.
    pub fn insert(&mut self, record: T)
        ensures
            final(self)@ == old(self)@.push(record),
    {
        self.records.push(record);
    }

    /// The place of the first record that `criteria` select.
    fn first_place<C: Criteria<T>>(&self, criteria: &C) -> (place: Option<usize>)
        ensures
            match place {
                Some(at) => is_first_match(self@, predicate_of(*criteria), at as int),
                None => !has_match(self@, predicate_of(*criteria)),
            },
    {
        let mut i: usize = 0;
        while i < self.records.len()
            invariant
                i <= self.records.len(),
                forall|k: int| 0 <= k < i ==> !criteria.accepts(#[trigger] self.records@[k]),
            decreases self.records.len() - i,
        {
            if criteria.matches(&self.records[i]) {
                return Some(i);
            }
            i += 1;
        }
        None
    }

    /// Puts `record` in the place of the first record that `criteria`
    /// select. Reports `NoMatch`, and changes nothing, when they select none.
    pub fn update<C: Criteria<T>>(&mut self, record: T, criteria: &C) -> (done: Result<
        (),
        StoreError,
    >)
        ensures
            done is Ok <==> has_match(old(self)@, predicate_of(*criteria)),
            done is Err ==> done == Err::<(), StoreError>(StoreError::NoMatch),
            final(self)@ == updated(old(self)@, record, predicate_of(*criteria)),
    {
        match self.first_place(criteria) {
            Some(at) => {
                proof {
                    lemma_first_match_is(self@, predicate_of(*criteria), at as int);
                }
                self.records.set(at, record);
                Ok(())
            },
            None => Err(StoreError::NoMatch),
        }
    }

    /// Updates, and inserts where the update finds no match: afterwards
    /// `record` stands in the place of the first selected record, or at the
    /// end. Returns whether a record was replaced. Both steps happen under
    /// the one borrow of the collection, so no other writer comes between.
    pub fn upsert<C: Criteria<T>>(&mut self, record: T, criteria: &C) -> (replaced: bool)
        ensures
            replaced == has_match(old(self)@, predicate_of(*criteria)),
            final(self)@ == upserted(old(self)@, record, predicate_of(*criteria)),
    {
        match self.first_place(criteria) {
            Some(at) => {
                proof {
                    lemma_first_match_is(self@, predicate_of(*criteria), at as int);
                }
                self.records.set(at, record);
                true
            },
            None => {
                self.records.push(record);
                false
            },
        }
    }
}

} // verus!
