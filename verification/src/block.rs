use vstd::prelude::*;
use vstd::slice::slice_subrange;
use crate::failure::ParseFailure;
use crate::fields::{field_at, span_texts, spans_within};
use crate::record::{parse_line, record_views, row, Record, RecordView};
use crate::text::chars_of;

verus! {

/// Where the line that starts at `from` ends: the index of the first line
/// feed at or after `from`, or the length of `s` when there is none.
pub open spec fn line_end(s: Seq<char>, from: int) -> int
    decreases s.len() - from,
{
    if 0 <= from < s.len() && s[from] != '\n' {
        line_end(s, from + 1)
    } else {
        from
    }
}

/// The lines of `s` from index `from` on. Each line feed ends a line; what
/// stands behind the last line feed is a line too, unless it is empty.
pub open spec fn lines_from(s: Seq<char>, from: int) -> Seq<Seq<char>>
    decreases s.len() - from,
{
    let end = line_end(s, from);
    if from < 0 || from >= s.len() {
        Seq::empty()
    } else if from <= end < s.len() {
        seq![s.subrange(from, end)] + lines_from(s, end + 1)
    } else {
        seq![s.subrange(from, s.len() as int)]
    }
}

/// The lines of a text.
pub open spec fn lines(s: Seq<char>) -> Seq<Seq<char>> {
    lines_from(s, 0)
}

/// The lines of a block that hold data: all but the first, which is the
/// header whatever it says.
pub open spec fn data_lines(block: Seq<char>) -> Seq<Seq<char>> {
    if lines(block).len() == 0 {
        Seq::empty()
    } else {
        lines(block).drop_first()
    }
}

/// The records that the lines give, in the order of the lines. A line that
/// fails gives none and does not stop the others.
pub open spec fn records_of(ls: Seq<Seq<char>>) -> Seq<RecordView>
    decreases ls.len(),
{
    if ls.len() == 0 {
        Seq::empty()
    } else {
        match row(ls.last()) {
            Ok(record) => records_of(ls.drop_last()).push(record),
            Err(_) => records_of(ls.drop_last()),
        }
    }
}

/// The failures of the lines that give no record, in the order of the lines.
pub open spec fn failures_of(ls: Seq<Seq<char>>) -> Seq<ParseFailure>
    decreases ls.len(),
{
    if ls.len() == 0 {
        Seq::empty()
    } else {
        match row(ls.last()) {
            Ok(_) => failures_of(ls.drop_last()),
            Err(failure) => failures_of(ls.drop_last()).push(failure),
        }
    }
}

/// Whether a blank line starts at `at`: two line feeds in a row.
pub open spec fn is_break(s: Seq<char>, at: int) -> bool {
    0 <= at && at + 1 < s.len() && s[at] == '\n' && s[at + 1] == '\n'
}

/// The index of the first blank line at or after `from`, or the length of
/// `s` when there is none.
pub open spec fn break_from(s: Seq<char>, from: int) -> int
    decreases s.len() - from,
{
    if from < 0 || from + 1 >= s.len() {
        s.len() as int
    } else if is_break(s, from) {
        from
    } else {
        break_from(s, from + 1)
    }
}

/// The blocks of `s` from index `from` on: what blank lines separate, found
/// from left to right. Behind a blank line the search goes on two
/// characters further, so of three line feeds in a row the third belongs
/// to the next block.
pub open spec fn blocks_from(s: Seq<char>, from: int) -> Seq<Seq<char>>
    decreases s.len() - from,
{
    let at = break_from(s, from);
    if 0 <= from <= at && at + 2 <= s.len() {
        seq![s.subrange(from, at)] + blocks_from(s, at + 2)
    } else {
        seq![s.subrange(from, s.len() as int)]
    }
}

/// The blocks of a text. There is always at least one.
pub open spec fn blocks(s: Seq<char>) -> Seq<Seq<char>> {
    blocks_from(s, 0)
}

/// The block that holds the table: the last one.
pub open spec fn last_block(s: Seq<char>) -> Seq<char> {
    blocks(s).last()
}

/// The first blank line at or after `from` lies between `from` and the end,
/// and no blank line starts before it.
pub proof fn lemma_break_from(s: Seq<char>, from: int)
    requires
        0 <= from <= s.len(),
    ensures
        from <= break_from(s, from) <= s.len(),
        break_from(s, from) < s.len() ==> is_break(s, break_from(s, from)),
        forall|i: int| from <= i < break_from(s, from) ==> !is_break(s, i),
    decreases s.len() - from,
{
    if from + 1 < s.len() && !is_break(s, from) {
        lemma_break_from(s, from + 1);
    }
}

/// A text has at least one block.
pub proof fn lemma_blocks_not_empty(s: Seq<char>)
    ensures
        blocks(s).len() > 0,
{
}

/// A text that holds no blank line is one block.
pub proof fn lemma_text_without_blank_line_is_one_block(s: Seq<char>)
    requires
        forall|i: int| !is_break(s, i),
    ensures
        last_block(s) == s,
{
    lemma_break_from(s, 0);
    assert(s.subrange(0, s.len() as int) =~= s);
}

/// Behind a text that does not end in a line feed, a blank line and a block
/// that holds no blank line, the last block is that block: nothing that
/// stands before the blank line counts.
pub proof fn lemma_last_block_of_two(before: Seq<char>, block: Seq<char>)
    requires
        before.len() == 0 || before.last() != '\n',
        forall|i: int| !is_break(block, i),
    ensures
        last_block(before + seq!['\n', '\n'] + block) == block,
{
    lemma_last_block_behind(before, block, 0);
}

/// The same, for the blocks from any index within the text before the
/// blank line.
proof fn lemma_last_block_behind(before: Seq<char>, block: Seq<char>, from: int)
    requires
        before.len() == 0 || before.last() != '\n',
        forall|i: int| !is_break(block, i),
        0 <= from <= before.len(),
    ensures
        blocks_from(before + seq!['\n', '\n'] + block, from).last() == block,
    decreases before.len() - from,
{
    let s = before + seq!['\n', '\n'] + block;
    let cut = before.len() as int;
    let at = break_from(s, from);
    lemma_break_from(s, from);
    assert(is_break(s, cut));
    if at < cut {
        lemma_last_block_behind(before, block, at + 2);
    } else {
        let rest = break_from(s, cut + 2);
        lemma_break_from(s, cut + 2);
        if rest < s.len() {
            assert(is_break(block, rest - cut - 2));
        }
        assert(blocks_from(s, cut + 2) =~= seq![s.subrange(cut + 2, s.len() as int)]);
    }
}

/// A line ends at or behind its start, within the text, at a line feed or
/// at the end, and holds no line feed.
pub proof fn lemma_line_end(s: Seq<char>, from: int)
    requires
        0 <= from <= s.len(),
    ensures
        from <= line_end(s, from) <= s.len(),
        line_end(s, from) < s.len() ==> s[line_end(s, from)] == '\n',
        forall|i: int| from <= i < line_end(s, from) ==> s[i] != '\n',
    decreases s.len() - from,
{
    if from < s.len() && s[from] != '\n' {
        lemma_line_end(s, from + 1);
    }
}

/// The lines of a text from some index on do not depend on what stands
/// before that index.
pub proof fn lemma_lines_behind(before: Seq<char>, rest: Seq<char>, from: int)
    requires
        0 <= from <= rest.len(),
    ensures
        lines_from(before + rest, before.len() + from) == lines_from(rest, from),
    decreases rest.len() - from,
{
    let s = before + rest;
    let shift = before.len() as int;
    lemma_line_end_behind(before, rest, from);
    lemma_line_end(rest, from);
    let end = line_end(rest, from);
    if from < rest.len() {
        assert(s.subrange(shift + from, shift + end) =~= rest.subrange(from, end));
        if end < rest.len() {
            lemma_lines_behind(before, rest, end + 1);
        }
    }
}

/// Where a line ends does not depend on what stands before its start.
proof fn lemma_line_end_behind(before: Seq<char>, rest: Seq<char>, from: int)
    requires
        0 <= from <= rest.len(),
    ensures
        line_end(before + rest, before.len() + from) == before.len() + line_end(rest, from),
    decreases rest.len() - from,
{
    if from < rest.len() && rest[from] != '\n' {
        lemma_line_end_behind(before, rest, from + 1);
    }
}

/// Whatever the first line of a block says, the data lines are the lines
/// behind it: the header never gives a record or a failure.
pub proof fn lemma_header_is_passed_over(header: Seq<char>, rest: Seq<char>)
    requires
        forall|i: int| 0 <= i < header.len() ==> header[i] != '\n',
    ensures
        data_lines(header + seq!['\n'] + rest) == lines(rest),
{
    let before = header + seq!['\n'];
    let s = before + rest;
    lemma_line_end(s, 0);
    let end = line_end(s, 0);
    assert(end == header.len()) by {
        if end > header.len() {
            assert(s[header.len() as int] == '\n');
        }
    }
    lemma_lines_behind(before, rest, 0);
}

/// Each line gives a record or a failure, never both and never neither.
pub proof fn lemma_every_line_counts(ls: Seq<Seq<char>>)
    ensures
        records_of(ls).len() + failures_of(ls).len() == ls.len(),
    decreases ls.len(),
{
    if ls.len() > 0 {
        lemma_every_line_counts(ls.drop_last());
    }
}

/// A line that fails adds its failure and leaves the records of the lines
/// before it as they are.
pub proof fn lemma_failed_line_keeps_records(ls: Seq<Seq<char>>, line: Seq<char>)
    requires
        row(line) is Err,
    ensures
        records_of(ls.push(line)) == records_of(ls),
        failures_of(ls.push(line)) == failures_of(ls).push(row(line)->Err_0),
{
    assert(ls.push(line).drop_last() =~= ls);
}

/// A line that reads adds its record behind the records of the lines before
/// it and leaves the failures as they are.
pub proof fn lemma_good_line_adds_record(ls: Seq<Seq<char>>, line: Seq<char>)
    requires
        row(line) is Ok,
    ensures
        records_of(ls.push(line)) == records_of(ls).push(row(line)->Ok_0),
        failures_of(ls.push(line)) == failures_of(ls),
{
    assert(ls.push(line).drop_last() =~= ls);
}

/// Finds where the line that starts at `from` ends.
fn scan_line(text: &[char], from: usize) -> (end: usize)
    requires
        from <= text.len(),
    ensures
        end == line_end(text@, from as int),
        from <= end <= text.len(),
{
    let mut i: usize = from;
    while i < text.len() && text[i] != '\n'
        invariant
            from <= i <= text.len(),
            line_end(text@, i as int) == line_end(text@, from as int),
        decreases text.len() - i,
    {
        i += 1;
    }
    i
}

/// Finds where the last block of `text` starts.
pub fn last_block_start(text: &[char]) -> (start: usize)
    ensures
        start <= text.len(),
        text@.subrange(start as int, text@.len() as int) == last_block(text@),
{
    let mut start: usize = 0;
    let mut at: usize = 0;
    while text.len() - at > 1
        invariant
            start <= at <= text.len(),
            break_from(text@, at as int) == break_from(text@, start as int),
            blocks_from(text@, start as int).last() == last_block(text@),
        decreases text.len() - at,
    {
        if text[at] == '\n' && text[at + 1] == '\n' {
            at += 2;
            start = at;
        } else {
            at += 1;
        }
    }
    start
}

/// Splits a text into its lines and gives the span of each: the index of
/// its first character and the index of the line feed that ends it, or the
/// length of the text for a last line without one.
pub fn split_lines(text: &[char]) -> (spans: Vec<(usize, usize)>)
    ensures
        spans_within(text@, spans@),
        span_texts(text@, spans@) == lines(text@),
{
    let mut spans: Vec<(usize, usize)> = Vec::new();
    let mut at: usize = 0;
    while at < text.len()
        invariant
            at <= text.len(),
            spans_within(text@, spans@),
            span_texts(text@, spans@) + lines_from(text@, at as int) == lines(text@),
        decreases text.len() - at,
    {
        let end = scan_line(text, at);
        let next = if end < text.len() {
            end + 1
        } else {
            end
        };
        spans.push((at, end));
        at = next;
    }
    spans
}

/// Reads a block given as its characters.
pub fn parse_block_chars(block: &[char]) -> (r: (Vec<Record>, Vec<ParseFailure>))
    ensures
        record_views(r.0@) == records_of(data_lines(block@)),
        r.1@ == failures_of(data_lines(block@)),
        r.0@.len() == records_of(data_lines(block@)).len(),
{
    let mut records: Vec<Record> = Vec::new();
    let mut failures: Vec<ParseFailure> = Vec::new();
    let spans = split_lines(block);
    let ghost data = data_lines(block@);
    if spans.len() == 0 {
        return (records, failures);
    }
    let mut k: usize = 1;
    while k < spans.len()
        invariant
            1 <= k <= spans.len(),
            spans_within(block@, spans@),
            span_texts(block@, spans@) == lines(block@),
            data == lines(block@).drop_first(),
            record_views(records@) == records_of(data.take(k - 1)),
            failures@ == failures_of(data.take(k - 1)),
        decreases spans.len() - k,
    {
        let line = field_at(block, &spans, k);
        assert(data.take(k as int).drop_last() =~= data.take(k - 1));
        match parse_line(line) {
            Ok(record) => records.push(record),
            Err(failure) => failures.push(failure),
        }
        k += 1;
    }
    assert(data.take(spans.len() - 1) =~= data);
    (records, failures)
}

/// Reads one block of a report: the first line is the header and is passed
/// over whatever it says; every line behind it gives a record or a failure.
/// The records come in the order of their lines, and so do the failures.
pub fn parse_block(input: &str) -> (r: (Vec<Record>, Vec<ParseFailure>))
    ensures
        record_views(r.0@) == records_of(data_lines(input@)),
        r.1@ == failures_of(data_lines(input@)),
        r.0@.len() == records_of(data_lines(input@)).len(),
{
    let block = chars_of(input);
    parse_block_chars(block.as_slice())
}

/// Reads the content of a report: the table is the last block, and nothing
/// before the last blank line is read. An empty content gives no record and
/// no failure.
pub fn parse_report(content: &str) -> (r: (Vec<Record>, Vec<ParseFailure>))
    ensures
        record_views(r.0@) == records_of(data_lines(last_block(content@))),
        r.1@ == failures_of(data_lines(last_block(content@))),
        r.0@.len() == records_of(data_lines(last_block(content@))).len(),
{
    let text = chars_of(content);
    let start = last_block_start(text.as_slice());
    parse_block_chars(slice_subrange(text.as_slice(), start, text.len()))
}

} // verus!
