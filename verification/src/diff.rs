use vstd::prelude::*;
use crate::measurement::Measurement;
use crate::mode::Mode;
use crate::record::{record_views, Record, RecordView};

verus! {

/// One benchmark that both reports hold: what the old and the new report
/// measured for it. The relative change is `(new - old) / old`, taken over
/// the numbers that the two scores write. An old score of zero is no reason
/// to leave the pair out: the diff is given, and the change is then no
/// finite number.
#[derive(Debug, PartialEq, Eq)]
pub struct Diff {
    /// The benchmark's name, the same in both records.
    pub name: String,
    /// The mode of the new record.
    pub mode: Mode,
    /// The score of the old record.
    pub old_score: Measurement,
    /// The score of the new record.
    pub new_score: Measurement,
    /// The unit, the same in both records.
    pub units: String,
}

/// What a diff holds, as plain values.
pub struct DiffView {
    pub name: Seq<char>,
    pub mode: Mode,
    pub old_score: Seq<char>,
    pub new_score: Seq<char>,
    pub units: Seq<char>,
}

impl View for Diff {
    type V = DiffView;

    open spec fn view(&self) -> DiffView {
        DiffView {
            name: self.name@,
            mode: self.mode,
            old_score: self.old_score@,
            new_score: self.new_score@,
            units: self.units@,
        }
    }
}

/// The diffs of a sequence of diffs, as plain values.
pub open spec fn diff_views(diffs: Seq<Diff>) -> Seq<DiffView> {
    Seq::new(diffs.len(), |i: int| diffs[i]@)
}

/// Two records are of the same benchmark when name and units agree.
pub open spec fn same_key(a: RecordView, b: RecordView) -> bool {
    a.name == b.name && a.units == b.units
}

/// The record at index `j` of `new` is the first one with the key of `old`.
pub open spec fn is_first_match(new: Seq<RecordView>, old: RecordView, j: int) -> bool {
    &&& 0 <= j < new.len()
    &&& same_key(new[j], old)
    &&& forall|i: int| 0 <= i < j ==> !same_key(#[trigger] new[i], old)
}

/// No record of `new` has the key of `old`.
pub open spec fn is_unmatched(new: Seq<RecordView>, old: RecordView) -> bool {
    forall|i: int| 0 <= i < new.len() ==> !same_key(#[trigger] new[i], old)
}

/// The index of the first record of `new` with the key of `old`, if there
/// is one.
pub open spec fn first_match(new: Seq<RecordView>, old: RecordView) -> Option<int> {
    if exists|j: int| is_first_match(new, old, j) {
        Some(choose|j: int| is_first_match(new, old, j))
    } else {
        None
    }
}

/// The diff of a matched pair: name, mode and units of the new record, and
/// both scores.
pub open spec fn delta(new: RecordView, old: RecordView) -> DiffView {
    DiffView {
        name: new.name,
        mode: new.mode,
        old_score: old.score,
        new_score: new.score,
        units: new.units,
    }
}

/// The diffs of two reports: every old record, in order, gives the diff
/// with its first match among the new records, or nothing when it has
/// none. A new record may serve several old ones.
pub open spec fn diffs(old: Seq<RecordView>, new: Seq<RecordView>) -> Seq<DiffView>
    decreases old.len(),
{
    if old.len() == 0 {
        Seq::empty()
    } else {
        match first_match(new, old.last()) {
            Some(j) => diffs(old.drop_last(), new).push(delta(new[j], old.last())),
            None => diffs(old.drop_last(), new),
        }
    }
}

/// An old record without a match among the new ones has no first match
/// and gives no diff.
pub proof fn lemma_unmatched_gives_nothing(old: RecordView, new: Seq<RecordView>)
    requires
        is_unmatched(new, old),
    ensures
        first_match(new, old) is None,
        diffs(seq![old], new) == Seq::<DiffView>::empty(),
{
    assert(seq![old].drop_last() =~= Seq::<RecordView>::empty());
    assert(diffs(Seq::<RecordView>::empty(), new) =~= Seq::<DiffView>::empty());
}

/// Among several new records of the same key the first one is taken,
/// whatever follows it: the match of an old record is one index and no
/// other, and its diff is the diff with the record there.
pub proof fn lemma_first_of_equal_keys_wins(old: RecordView, new: Seq<RecordView>, j: int)
    requires
        is_first_match(new, old, j),
    ensures
        first_match(new, old) == Some(j),
        diffs(seq![old], new) == seq![delta(new[j], old)],
{
    assert(seq![old].drop_last() =~= Seq::<RecordView>::empty());
    assert(diffs(Seq::<RecordView>::empty(), new) =~= Seq::<DiffView>::empty());
}

/// The diffs follow the order of the old records, each old record on its
/// own: the diffs of two runs of old records, one behind the other, are
/// the diffs of the first and then those of the second.
pub proof fn lemma_diffs_in_order(a: Seq<RecordView>, b: Seq<RecordView>, new: Seq<RecordView>)
    ensures
        diffs(a + b, new) == diffs(a, new) + diffs(b, new),
    decreases b.len(),
{
    if b.len() > 0 {
        lemma_diffs_in_order(a, b.drop_last(), new);
        assert((a + b).drop_last() =~= a + b.drop_last());
    }
}

/// The diff of a pair of records of the same benchmark.
pub fn calculate_delta(new: &Record, old: &Record) -> (diff: Diff)
    ensures
        diff@ == delta(new@, old@),
{
    Diff {
        name: new.name.clone(),
        mode: new.mode,
        new_score: new.score.clone(),
        old_score: old.score.clone(),
        units: new.units.clone(),
    }
}

/// Finds the first record of `new` with the name and the units of `old`.
pub fn find_match(new: &Vec<Record>, old: &Record) -> (r: Option<usize>)
    ensures
        match r {
            Some(j) => is_first_match(record_views(new@), old@, j as int),
            None => is_unmatched(record_views(new@), old@),
        },
{
    let mut j: usize = 0;
    while j < new.len()
        invariant
            j <= new.len(),
            forall|i: int| 0 <= i < j ==> !same_key(#[trigger] record_views(new@)[i], old@),
        decreases new.len() - j,
    {
        if new[j].name == old.name && new[j].units == old.units {
            return Some(j);
        }
        j += 1;
    }
    None
}

/// Pairs the records of two reports and gives the diff of each pair. Every
/// old record is looked up among the new ones by name and units; the first
/// new record that agrees is taken, and an old record that finds none is
/// left out. The diffs come in the order of the old records.
pub fn compare_benchmark_results(old_results: Vec<Record>, new_results: Vec<Record>) -> (out: Vec<
    Diff,
>)
    ensures
        diff_views(out@) == diffs(record_views(old_results@), record_views(new_results@)),
        out@.len() == diffs(record_views(old_results@), record_views(new_results@)).len(),
{
    let mut out: Vec<Diff> = Vec::new();
    let mut i: usize = 0;
    while i < old_results.len()
        invariant
            i <= old_results.len(),
            diff_views(out@) == diffs(
                record_views(old_results@).take(i as int),
                record_views(new_results@),
            ),
        decreases old_results.len() - i,
    {
        let old = &old_results[i];
        assert(record_views(old_results@).take(i + 1).drop_last() =~= record_views(
            old_results@,
        ).take(i as int));
        match find_match(&new_results, old) {
            Some(j) => out.push(calculate_delta(&new_results[j], old)),
            None => {},
        }
        i += 1;
    }
    assert(record_views(old_results@).take(old_results.len() as int) =~= record_views(
        old_results@,
    ));
    out
}

} // verus!
