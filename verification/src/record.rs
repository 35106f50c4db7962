use vstd::prelude::*;
use crate::failure::ParseFailure;
use crate::fields::{
    field_at, fields, is_word, lemma_fields_are_words, span_texts, spans_within, split_fields,
};
use crate::measurement::Measurement;
use crate::mode::Mode;
use crate::number::{integer_of, is_float_literal, parse_integer};
use crate::text::{chars_of, string_of};

verus! {

/// One measurement of a report: what one line of its table says.
#[derive(Debug, PartialEq, Eq)]
pub struct Record {
    /// The benchmark's name.
    pub name: String,
    /// How the benchmark was run.
    pub mode: Mode,
    /// The number of iterations or samples.
    pub count: i64,
    /// The measured value.
    pub score: Measurement,
    /// The uncertainty of the measured value.
    pub error: Measurement,
    /// The unit of the measured value.
    pub units: String,
}

/// What a record holds, as plain values.
pub struct RecordView {
    pub name: Seq<char>,
    pub mode: Mode,
    pub count: int,
    pub score: Seq<char>,
    pub error: Seq<char>,
    pub units: Seq<char>,
}

impl RecordView {
    /// What holds of every record that a line gave: the name and the units
    /// are words, and the score and the error write floating-point numbers.
    pub open spec fn well_formed(self) -> bool {
        &&& is_word(self.name)
        &&& is_word(self.units)
        &&& is_float_literal(self.score)
        &&& is_float_literal(self.error)
        &&& i64::MIN <= self.count <= i64::MAX
    }
}

impl View for Record {
    type V = RecordView;

    open spec fn view(&self) -> RecordView {
        RecordView {
            name: self.name@,
            mode: self.mode,
            count: self.count as int,
            score: self.score@,
            error: self.error@,
            units: self.units@,
        }
    }
}

/// The records of a sequence of records, as plain values.
pub open spec fn record_views(records: Seq<Record>) -> Seq<RecordView> {
    Seq::new(records.len(), |i: int| records[i]@)
}

/// What the fields of a line give, read from left to right: the name, the
/// mode, the count, the score, one field that is passed over, the error and
/// the units. The first field that is absent or does not read decides the
/// failure. Fields behind the units are not looked at.
pub open spec fn record_of_fields(f: Seq<Seq<char>>) -> Result<RecordView, ParseFailure> {
    if f.len() < 1 {
        Err(ParseFailure::MissingNameField)
    } else if f.len() < 2 || Mode::of_token(f[1]) is None {
        Err(ParseFailure::InvalidMode)
    } else if f.len() < 3 {
        Err(ParseFailure::MissingCountField)
    } else if integer_of(f[2]) is None {
        Err(ParseFailure::InvalidIntegerValue)
    } else if f.len() < 4 {
        Err(ParseFailure::MissingCountField)
    } else if !is_float_literal(f[3]) {
        Err(ParseFailure::InvalidFloatValue)
    } else if f.len() < 6 {
        Err(ParseFailure::MissingCountField)
    } else if !is_float_literal(f[5]) {
        Err(ParseFailure::InvalidFloatValue)
    } else if f.len() < 7 {
        Err(ParseFailure::MissingCountField)
    } else {
        Ok(
            RecordView {
                name: f[0],
                mode: Mode::of_token(f[1])->0,
                count: integer_of(f[2])->0,
                score: f[3],
                error: f[5],
                units: f[6],
            },
        )
    }
}

/// What a line gives: the record of its fields, or the failure.
pub open spec fn row(line: Seq<char>) -> Result<RecordView, ParseFailure> {
    record_of_fields(fields(line))
}

/// A line of seven fields or more whose mode, count, score and error read
/// gives a record, made of those fields.
pub proof fn lemma_full_line_gives_record(line: Seq<char>)
    requires
        fields(line).len() >= 7,
        Mode::of_token(fields(line)[1]) is Some,
        integer_of(fields(line)[2]) is Some,
        is_float_literal(fields(line)[3]),
        is_float_literal(fields(line)[5]),
    ensures
        row(line) == Ok::<RecordView, ParseFailure>(
            RecordView {
                name: fields(line)[0],
                mode: Mode::of_token(fields(line)[1])->0,
                count: integer_of(fields(line)[2])->0,
                score: fields(line)[3],
                error: fields(line)[5],
                units: fields(line)[6],
            },
        ),
{
}

/// A line that stops before the units, with all that stands before them in
/// order, fails for a missing field.
pub proof fn lemma_line_without_units_fails(line: Seq<char>)
    requires
        fields(line).len() == 6,
        Mode::of_token(fields(line)[1]) is Some,
        integer_of(fields(line)[2]) is Some,
        is_float_literal(fields(line)[3]),
        is_float_literal(fields(line)[5]),
    ensures
        row(line) == Err::<RecordView, ParseFailure>(ParseFailure::MissingCountField),
{
}

/// Every record that a line gives is well formed.
pub proof fn lemma_row_is_well_formed(line: Seq<char>)
    ensures
        row(line) matches Ok(v) ==> v.well_formed(),
{
    lemma_fields_are_words(line, 0);
}

/// Reads a record from the fields of a line, given as the line's characters
/// and the span of each field.
pub fn parse_fields(line: &[char], spans: &Vec<(usize, usize)>) -> (r: Result<Record, ParseFailure>)
    requires
        spans_within(line@, spans@),
    ensures
        match r {
            Ok(record) => record_of_fields(span_texts(line@, spans@)) == Ok::<
                RecordView,
                ParseFailure,
            >(record@),
            Err(failure) => record_of_fields(span_texts(line@, spans@)) == Err::<
                RecordView,
                ParseFailure,
            >(failure),
        },
{
    let n = spans.len();
    if n < 1 {
        return Err(ParseFailure::MissingNameField);
    }
    let name = string_of(field_at(line, spans, 0));
    if n < 2 {
        return Err(ParseFailure::InvalidMode);
    }
    let mode = match Mode::of_chars(field_at(line, spans, 1)) {
        Some(mode) => mode,
        None => return Err(ParseFailure::InvalidMode),
    };
    if n < 3 {
        return Err(ParseFailure::MissingCountField);
    }
    let count = match parse_integer(field_at(line, spans, 2)) {
        Some(count) => count,
        None => return Err(ParseFailure::InvalidIntegerValue),
    };
    if n < 4 {
        return Err(ParseFailure::MissingCountField);
    }
    let score = match Measurement::of_chars(field_at(line, spans, 3)) {
        Some(score) => score,
        None => return Err(ParseFailure::InvalidFloatValue),
    };
    if n < 6 {
        return Err(ParseFailure::MissingCountField);
    }
    let error = match Measurement::of_chars(field_at(line, spans, 5)) {
        Some(error) => error,
        None => return Err(ParseFailure::InvalidFloatValue),
    };
    if n < 7 {
        return Err(ParseFailure::MissingCountField);
    }
    let units = string_of(field_at(line, spans, 6));
    Ok(Record { name, mode, count, score, error, units })
}

/// Reads one line, given as its characters.
pub fn parse_line(line: &[char]) -> (r: Result<Record, ParseFailure>)
    ensures
        match r {
            Ok(record) => row(line@) == Ok::<RecordView, ParseFailure>(record@)
                && record@.well_formed(),
            Err(failure) => row(line@) == Err::<RecordView, ParseFailure>(failure),
        },
{
    let spans = split_fields(line);
    proof {
        lemma_row_is_well_formed(line@);
    }
    parse_fields(line, &spans)
}

/// Reads one line of a report's table. The line either gives a record with
/// all its six values, or one failure: that of the first field, from the
/// left, that is absent or does not read.
pub fn parse_row(input: &str) -> (r: Result<Record, ParseFailure>)
    ensures
        match r {
            Ok(record) => row(input@) == Ok::<RecordView, ParseFailure>(record@)
                && record@.well_formed(),
            Err(failure) => row(input@) == Err::<RecordView, ParseFailure>(failure),
        },
{
    let line = chars_of(input);
    parse_line(line.as_slice())
}

} // verus!
