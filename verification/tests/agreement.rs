use benchdiff::block::{last_block_start, parse_block, parse_report, split_lines};
use benchdiff::failure::ParseFailure;
use benchdiff::fields::split_fields;
use benchdiff::measurement::Measurement;
use benchdiff::mode::Mode;
use benchdiff::number::parse_integer;
use benchdiff::record::parse_row;

/// Every text of at most `max` characters over `alphabet`.
fn texts(alphabet: &[char], max: usize) -> Vec<String> {
    let mut all = vec![String::new()];
    let mut last = vec![String::new()];
    for _ in 0..max {
        let mut next = Vec::with_capacity(last.len() * alphabet.len());
        for text in &last {
            for &c in alphabet {
                let mut longer = text.clone();
                longer.push(c);
                next.push(longer);
            }
        }
        all.extend(next.iter().cloned());
        last = next;
    }
    all
}

fn spans_as_texts(chars: &[char], spans: &[(usize, usize)]) -> Vec<String> {
    spans.iter().map(|&(from, to)| chars[from..to].iter().collect()).collect()
}

#[test]
fn every_short_text_is_a_number_for_both_or_for_neither() {
    let alphabet = ['0', '7', '.', 'e', 'E', '+', '-', 'n', 'a', 'x'];
    for text in texts(&alphabet, 5) {
        let expected = text.parse::<f64>().is_ok();
        assert_eq!(Measurement::parse(&text).is_some(), expected, "{:?}", text);
    }
}

#[test]
fn every_spelling_of_the_special_words_is_taken() {
    for word in ["inf", "infinity", "nan"] {
        let letters: Vec<char> = word.chars().collect();
        for mask in 0..(1u32 << letters.len()) {
            let spelled: String = letters
                .iter()
                .enumerate()
                .map(|(i, c)| if mask & (1 << i) != 0 { c.to_ascii_uppercase() } else { *c })
                .collect();
            for sign in ["", "+", "-"] {
                let text = format!("{}{}", sign, spelled);
                assert!(text.parse::<f64>().is_ok(), "{:?}", text);
                assert!(Measurement::parse(&text).is_some(), "{:?}", text);
            }
        }
    }
    for text in ["in", "infi", "infinit", "infinity0", "nan0", "+-inf", "++nan", "i n f", "ınf"] {
        assert_eq!(Measurement::parse(text).is_some(), text.parse::<f64>().is_ok(), "{:?}", text);
        assert!(Measurement::parse(text).is_none(), "{:?}", text);
    }
}

#[test]
fn every_short_text_is_an_integer_for_both_or_for_neither() {
    let alphabet = ['0', '1', '9', '+', '-', '.', 'a', ' '];
    for text in texts(&alphabet, 5) {
        let chars: Vec<char> = text.chars().collect();
        assert_eq!(parse_integer(&chars), text.parse::<i64>().ok(), "{:?}", text);
    }
}

#[test]
fn integers_near_the_limits_agree() {
    let mut cases = Vec::new();
    for last in 0..10 {
        for sign in ["", "+", "-"] {
            cases.push(format!("{}922337203685477580{}", sign, last));
            cases.push(format!("{}0922337203685477580{}", sign, last));
            cases.push(format!("{}922337203685477580{}0", sign, last));
            cases.push(format!("{}92233720368547758{}", sign, last));
        }
    }
    for text in cases {
        let chars: Vec<char> = text.chars().collect();
        assert_eq!(parse_integer(&chars), text.parse::<i64>().ok(), "{:?}", text);
    }
}

#[test]
fn every_short_text_splits_into_fields_like_split_whitespace() {
    let alphabet = ['a', 'b', ' ', '\t', '\u{a0}', '\u{200b}'];
    for text in texts(&alphabet, 6) {
        let chars: Vec<char> = text.chars().collect();
        let expected: Vec<String> = text.split_whitespace().map(String::from).collect();
        assert_eq!(spans_as_texts(&chars, &split_fields(&chars)), expected, "{:?}", text);
    }
}

#[test]
fn every_short_text_splits_into_lines_like_split_terminator() {
    let alphabet = ['a', '\n', '\r'];
    for text in texts(&alphabet, 8) {
        let chars: Vec<char> = text.chars().collect();
        let expected: Vec<String> = text.split_terminator('\n').map(String::from).collect();
        assert_eq!(spans_as_texts(&chars, &split_lines(&chars)), expected, "{:?}", text);
    }
}

#[test]
fn every_short_text_has_the_last_block_that_split_gives() {
    let alphabet = ['a', '\n', ' '];
    for text in texts(&alphabet, 9) {
        let chars: Vec<char> = text.chars().collect();
        let found: String = chars[last_block_start(&chars)..].iter().collect();
        let expected = text.split("\n\n").last().unwrap_or_default();
        assert_eq!(found, expected, "{:?}", text);
    }
}

/// What a line gives, read with the standard library alone.
fn row_by_hand(line: &str) -> Result<(String, Mode, i64, f64, f64, String), ParseFailure> {
    let mut parts = line.split_whitespace();
    let name = parts.next().ok_or(ParseFailure::MissingNameField)?.to_string();
    let mode = match parts.next().map(|m| m.to_lowercase()).as_deref() {
        Some("thrpt") => Mode::Throughput,
        Some("avgt") => Mode::AverageTime,
        Some("sample") => Mode::SampleTime,
        Some("ss") => Mode::SingleShotTime,
        _ => return Err(ParseFailure::InvalidMode),
    };
    let count = parts.next().ok_or(ParseFailure::MissingCountField)?;
    let count = count.parse::<i64>().map_err(|_| ParseFailure::InvalidIntegerValue)?;
    let score = parts.next().ok_or(ParseFailure::MissingCountField)?;
    let score = score.parse::<f64>().map_err(|_| ParseFailure::InvalidFloatValue)?;
    let error = parts.nth(1).ok_or(ParseFailure::MissingCountField)?;
    let error = error.parse::<f64>().map_err(|_| ParseFailure::InvalidFloatValue)?;
    let units = parts.next().ok_or(ParseFailure::MissingCountField)?.to_string();
    Ok((name, mode, count, score, error, units))
}

fn same_number(a: f64, b: f64) -> bool {
    a.to_bits() == b.to_bits() || (a.is_nan() && b.is_nan())
}

fn assert_row_agrees(line: &str) {
    match (parse_row(line), row_by_hand(line)) {
        (Ok(record), Ok((name, mode, count, score, error, units))) => {
            assert_eq!(record.name, name, "{:?}", line);
            assert_eq!(record.mode, mode, "{:?}", line);
            assert_eq!(record.count, count, "{:?}", line);
            assert!(same_number(record.score.as_str().parse().unwrap(), score), "{:?}", line);
            assert!(same_number(record.error.as_str().parse().unwrap(), error), "{:?}", line);
            assert_eq!(record.units, units, "{:?}", line);
        }
        (Err(found), Err(expected)) => assert_eq!(found, expected, "{:?}", line),
        (found, expected) => panic!("{:?}: {:?} but {:?}", line, found, expected),
    }
}

#[test]
fn every_line_of_a_few_fields_reads_as_by_hand() {
    let fields = ["b", "thrpt", "SS", "5", "-1", "1.5", "nan", "±", "x", "1e", "ops/s"];
    let mut lines = vec![String::new()];
    let mut last = vec![String::new()];
    for _ in 0..4 {
        let mut next = Vec::new();
        for line in &last {
            for field in fields {
                next.push(format!("{} {}", line, field));
            }
        }
        lines.extend(next.iter().cloned());
        last = next;
    }
    for line in &lines {
        assert_row_agrees(line);
    }
}

#[test]
fn every_line_with_one_field_changed_reads_as_by_hand() {
    let good = ["MyBench.run", "thrpt", "25", "1234.567", "±", "12.345", "ops/s", "extra"];
    let changes = ["", "x", "7", "-7", "1.0", "+inf", "avgt", "Sample", "9223372036854775808", "."];
    for at in 0..good.len() {
        for change in changes {
            for keep in 0..=good.len() {
                let mut fields: Vec<&str> = good.to_vec();
                fields[at] = change;
                fields.truncate(keep);
                assert_row_agrees(&fields.join(" "));
                assert_row_agrees(&fields.join("\t \u{a0}"));
            }
        }
    }
}

/// What a block gives, read with the standard library alone.
fn block_by_hand(block: &str) -> (usize, Vec<ParseFailure>) {
    let mut records = 0;
    let mut failures = Vec::new();
    for line in block.split_terminator('\n').skip(1) {
        match row_by_hand(line) {
            Ok(_) => records += 1,
            Err(failure) => failures.push(failure),
        }
    }
    (records, failures)
}

#[test]
fn every_text_of_a_few_pieces_reads_as_by_hand() {
    let pieces = ["\n", "\n\n", "b thrpt 1 1.0 x 0.1 u", "b thrpt", "head", " ", "c ss 2 2 x 2 v\n"];
    let mut contents = vec![String::new()];
    let mut last = vec![String::new()];
    for _ in 0..5 {
        let mut next = Vec::new();
        for content in &last {
            for piece in pieces {
                next.push(format!("{}{}", content, piece));
            }
        }
        contents.extend(next.iter().cloned());
        last = next;
    }
    for content in &contents {
        let (records, failures) = parse_block(content);
        let (expected_records, expected_failures) = block_by_hand(content);
        assert_eq!(records.len(), expected_records, "{:?}", content);
        assert_eq!(failures, expected_failures, "{:?}", content);

        let (records, failures) = parse_report(content);
        let block = content.split("\n\n").last().unwrap_or_default();
        let (expected_records, expected_failures) = block_by_hand(block);
        assert_eq!(records.len(), expected_records, "{:?}", content);
        assert_eq!(failures, expected_failures, "{:?}", content);
    }
}
