use vstd::prelude::*;
use vstd::slice::slice_subrange;
use crate::text::{is_white_space, white_space};

verus! {

/// Where the run that starts at `from` ends: the first index at or after
/// `from` whose character is white space if `blank` is false, or is no white
/// space if `blank` is true; the length of `s` when the run reaches the end.
pub open spec fn run_end(s: Seq<char>, from: int, blank: bool) -> int
    decreases s.len() - from,
{
    if 0 <= from < s.len() && white_space(s[from]) == blank {
        run_end(s, from + 1, blank)
    } else {
        from
    }
}

/// The fields of `s` that start at or after `from`: skip white space, take
/// the characters up to the next white space as one field, and go on behind
/// it.
pub open spec fn fields_from(s: Seq<char>, from: int) -> Seq<Seq<char>>
    decreases s.len() - from,
{
    let start = run_end(s, from, true);
    let end = run_end(s, start, false);
    if from <= start < end <= s.len() {
        seq![s.subrange(start, end)] + fields_from(s, end)
    } else {
        Seq::empty()
    }
}

/// The fields of a line: its maximal runs of characters that are no white
/// space, from left to right.
pub open spec fn fields(s: Seq<char>) -> Seq<Seq<char>> {
    fields_from(s, 0)
}

/// A word is not empty and holds no white space.
pub open spec fn is_word(w: Seq<char>) -> bool {
    w.len() > 0 && forall|i: int| 0 <= i < w.len() ==> !white_space(#[trigger] w[i])
}

/// The text that a span of `s` covers.
pub open spec fn span_text(s: Seq<char>, span: (usize, usize)) -> Seq<char> {
    s.subrange(span.0 as int, span.1 as int)
}

/// Every span lies within `s`.
pub open spec fn spans_within(s: Seq<char>, spans: Seq<(usize, usize)>) -> bool {
    forall|k: int| 0 <= k < spans.len() ==> (#[trigger] spans[k]).0 <= spans[k].1 <= s.len()
}

/// The texts that the spans cover, in order.
pub open spec fn span_texts(s: Seq<char>, spans: Seq<(usize, usize)>) -> Seq<Seq<char>> {
    Seq::new(spans.len(), |k: int| span_text(s, spans[k]))
}

/// A run ends within the sequence, holds only characters of its kind, and
/// stops at the first character of the other kind.
pub proof fn lemma_run_end(s: Seq<char>, from: int, blank: bool)
    requires
        0 <= from <= s.len(),
    ensures
        from <= run_end(s, from, blank) <= s.len(),
        forall|i: int|
            from <= i < run_end(s, from, blank) ==> white_space(#[trigger] s[i]) == blank,
        run_end(s, from, blank) < s.len() ==> white_space(s[run_end(s, from, blank)]) != blank,
    decreases s.len() - from,
{
    if from < s.len() && white_space(s[from]) == blank {
        lemma_run_end(s, from + 1, blank);
    }
}

/// Every field is a word.
pub proof fn lemma_fields_are_words(s: Seq<char>, from: int)
    requires
        0 <= from <= s.len(),
    ensures
        forall|k: int|
            0 <= k < fields_from(s, from).len() ==> is_word(#[trigger] fields_from(s, from)[k]),
    decreases s.len() - from,
{
    let start = run_end(s, from, true);
    let end = run_end(s, start, false);
    lemma_run_end(s, from, true);
    lemma_run_end(s, start, false);
    if from <= start < end <= s.len() {
        lemma_fields_are_words(s, end);
        assert(is_word(s.subrange(start, end)));
        assert forall|k: int| 0 <= k < fields_from(s, from).len() implies is_word(
            #[trigger] fields_from(s, from)[k],
        ) by {
            if k > 0 {
                assert(fields_from(s, from)[k] == fields_from(s, end)[k - 1]);
            }
        }
    }
}

/// Where a run ends does not depend on what stands before its start.
proof fn lemma_run_end_behind(before: Seq<char>, rest: Seq<char>, from: int, blank: bool)
    requires
        0 <= from <= rest.len(),
    ensures
        run_end(before + rest, before.len() + from, blank) == before.len() + run_end(
            rest,
            from,
            blank,
        ),
    decreases rest.len() - from,
{
    if from < rest.len() && white_space(rest[from]) == blank {
        lemma_run_end_behind(before, rest, from + 1, blank);
    }
}

/// A run that ends within the first part of a text is not changed by what
/// follows.
proof fn lemma_run_end_within(first: Seq<char>, rest: Seq<char>, from: int, blank: bool)
    requires
        0 <= from <= first.len(),
        run_end(first, from, blank) < first.len(),
    ensures
        run_end(first + rest, from, blank) == run_end(first, from, blank),
    decreases first.len() - from,
{
    if white_space(first[from]) == blank {
        lemma_run_end_within(first, rest, from + 1, blank);
    }
}

/// A run that reaches the end of the first part of a text goes on in what
/// follows.
proof fn lemma_run_end_across(first: Seq<char>, rest: Seq<char>, from: int, blank: bool)
    requires
        0 <= from <= first.len(),
        run_end(first, from, blank) == first.len(),
    ensures
        run_end(first + rest, from, blank) == first.len() + run_end(rest, 0, blank),
    decreases first.len() - from,
{
    if from < first.len() {
        lemma_run_end_across(first, rest, from + 1, blank);
    } else {
        lemma_run_end_behind(first, rest, 0, blank);
    }
}

/// The fields of a text from some index on do not depend on what stands
/// before that index.
pub proof fn lemma_fields_behind(before: Seq<char>, rest: Seq<char>, from: int)
    requires
        0 <= from <= rest.len(),
    ensures
        fields_from(before + rest, before.len() + from) == fields_from(rest, from),
    decreases rest.len() - from,
{
    let s = before + rest;
    let shift = before.len() as int;
    let start = run_end(rest, from, true);
    lemma_run_end(rest, from, true);
    lemma_run_end_behind(before, rest, from, true);
    let end = run_end(rest, start, false);
    lemma_run_end(rest, start, false);
    lemma_run_end_behind(before, rest, start, false);
    if start < end {
        assert(s.subrange(shift + start, shift + end) =~= rest.subrange(start, end));
        lemma_fields_behind(before, rest, end);
    }
}

/// A word is its own single field.
pub proof fn lemma_word_is_one_field(w: Seq<char>)
    requires
        is_word(w),
    ensures
        fields(w) == seq![w],
{
    lemma_run_end(w, 0, false);
    assert(w.subrange(0, w.len() as int) =~= w);
    assert(fields_from(w, w.len() as int) =~= Seq::<Seq<char>>::empty());
}

/// White space parts a text for good: the fields of two texts with a white
/// space character between them are the fields of the first and then those
/// of the second.
pub proof fn lemma_fields_around_blank(first: Seq<char>, blank: char, second: Seq<char>)
    requires
        white_space(blank),
    ensures
        fields(first + seq![blank] + second) == fields(first) + fields(second),
{
    lemma_fields_before_blank(first, blank, second, 0);
}

/// The same, for the fields from any index within the first text.
proof fn lemma_fields_before_blank(first: Seq<char>, blank: char, second: Seq<char>, from: int)
    requires
        white_space(blank),
        0 <= from <= first.len(),
    ensures
        fields_from(first + seq![blank] + second, from) == fields_from(first, from) + fields(
            second,
        ),
    decreases first.len() - from,
{
    let head = first + seq![blank];
    let s = head + second;
    let cut = first.len() as int;
    let start = run_end(first, from, true);
    lemma_run_end(first, from, true);
    if start < cut {
        lemma_run_end_within(first, seq![blank], from, true);
        lemma_run_end_within(head, second, from, true);
        let end = run_end(first, start, false);
        lemma_run_end(first, start, false);
        assert(run_end(head, start, false) == end) by {
            if end < cut {
                lemma_run_end_within(first, seq![blank], start, false);
            } else {
                lemma_run_end_across(first, seq![blank], start, false);
            }
        }
        lemma_run_end_within(head, second, start, false);
        assert(s.subrange(start, end) =~= first.subrange(start, end));
        lemma_fields_before_blank(first, blank, second, end);
    } else {
        lemma_run_end_across(first, seq![blank], from, true);
        assert(run_end(seq![blank], 1, true) == 1);
        lemma_run_end_across(head, second, from, true);
        lemma_run_end_behind(head, second, 0, true);
        lemma_fields_behind(head, second, 0);
    }
}

/// The words, written one behind the other with `blank` between each two.
pub open spec fn joined(words: Seq<Seq<char>>, blank: char) -> Seq<char>
    decreases words.len(),
{
    if words.len() == 0 {
        Seq::empty()
    } else if words.len() == 1 {
        words[0]
    } else {
        joined(words.drop_last(), blank) + seq![blank] + words.last()
    }
}

/// Words that are joined by white space split into the same words again.
pub proof fn lemma_joined_words_split_back(words: Seq<Seq<char>>, blank: char)
    requires
        white_space(blank),
        forall|k: int| 0 <= k < words.len() ==> is_word(#[trigger] words[k]),
    ensures
        fields(joined(words, blank)) == words,
    decreases words.len(),
{
    if words.len() == 1 {
        lemma_word_is_one_field(words[0]);
    } else if words.len() > 1 {
        lemma_joined_words_split_back(words.drop_last(), blank);
        lemma_fields_around_blank(joined(words.drop_last(), blank), blank, words.last());
        lemma_word_is_one_field(words.last());
    }
}

/// Finds where the run that starts at `from` ends.
fn scan_run(line: &[char], from: usize, blank: bool) -> (end: usize)
    requires
        from <= line.len(),
    ensures
        end == run_end(line@, from as int, blank),
        from <= end <= line.len(),
{
    let mut i: usize = from;
    while i < line.len() && is_white_space(line[i]) == blank
        invariant
            from <= i <= line.len(),
            run_end(line@, i as int, blank) == run_end(line@, from as int, blank),
        decreases line.len() - i,
    {
        i += 1;
    }
    i
}

/// Splits a line into its fields and gives the span of each: the index of
/// its first character and the index behind its last.
pub fn split_fields(line: &[char]) -> (spans: Vec<(usize, usize)>)
    ensures
        spans_within(line@, spans@),
        span_texts(line@, spans@) == fields(line@),
{
    let mut spans: Vec<(usize, usize)> = Vec::new();
    let mut at: usize = 0;
    loop
        invariant
            at <= line.len(),
            spans_within(line@, spans@),
            span_texts(line@, spans@) + fields_from(line@, at as int) == fields(line@),
        ensures
            spans_within(line@, spans@),
            span_texts(line@, spans@) == fields(line@),
        decreases line.len() - at,
    {
        let start = scan_run(line, at, true);
        let end = scan_run(line, start, false);
        if start == end {
            break;
        }
        spans.push((start, end));
        at = end;
    }
    spans
}

/// The characters of the field that the span at index `k` covers.
pub fn field_at<'a>(line: &'a [char], spans: &Vec<(usize, usize)>, k: usize) -> (word: &'a [char])
    requires
        spans_within(line@, spans@),
        k < spans.len(),
    ensures
        word@ == span_texts(line@, spans@)[k as int],
{
    let span = spans[k];
    slice_subrange(line, span.0, span.1)
}

} // verus!
