use vstd::prelude::*;
use crate::block::{
    data_lines, failures_of, last_block, lemma_text_without_blank_line_is_one_block, lines,
    parse_report, records_of,
};
use crate::diff::{compare_benchmark_results, diff_views, diffs, Diff};
use crate::failure::ParseFailure;
use crate::record::RecordView;

verus! {

/// What the comparison of two reports gives.
#[derive(Debug, PartialEq, Eq)]
pub struct Comparison {
    /// The diffs of the benchmarks that both reports hold.
    pub diffs: Vec<Diff>,
    /// Whether a line of either report gave no record and was left out.
    pub rows_ignored: bool,
}

/// The records that the content of a report gives.
pub open spec fn report_records(content: Seq<char>) -> Seq<RecordView> {
    records_of(data_lines(last_block(content)))
}

/// The failures that the content of a report gives.
pub open spec fn report_failures(content: Seq<char>) -> Seq<ParseFailure> {
    failures_of(data_lines(last_block(content)))
}

/// An empty report gives no record and no failure.
pub proof fn lemma_empty_report_gives_nothing()
    ensures
        report_records(Seq::empty()) == Seq::<RecordView>::empty(),
        report_failures(Seq::empty()) == Seq::<ParseFailure>::empty(),
{
    let empty = Seq::<char>::empty();
    lemma_text_without_blank_line_is_one_block(empty);
    assert(lines(empty) =~= Seq::<Seq<char>>::empty());
}

/// Compares two reports, given by their content. Each is read on its own;
/// lines that fail are left out of it and only make `rows_ignored` true.
/// The diffs are those of the records that were read.
pub fn compare_reports(old_content: &str, new_content: &str) -> (out: Comparison)
    ensures
        diff_views(out.diffs@) == diffs(
            report_records(old_content@),
            report_records(new_content@),
        ),
        out.diffs@.len() == diffs(
            report_records(old_content@),
            report_records(new_content@),
        ).len(),
        out.rows_ignored == (report_failures(old_content@).len() > 0 || report_failures(
            new_content@,
        ).len() > 0),
{
    let (new_results, new_errors) = parse_report(new_content);
    let (old_results, old_errors) = parse_report(old_content);
    let rows_ignored = old_errors.len() > 0 || new_errors.len() > 0;
    let diffs = compare_benchmark_results(old_results, new_results);
    Comparison { diffs, rows_ignored }
}

} // verus!
