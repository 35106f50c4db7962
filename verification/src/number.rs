use vstd::prelude::*;
use vstd::slice::slice_subrange;
use crate::text::{lower, lowercase, reads_as};

verus! {

/// One of the ten ASCII digits.
pub open spec fn is_digit(c: char) -> bool {
    '0' <= c <= '9'
}

/// The number that a digit stands for.
pub open spec fn digit_value(c: char) -> int {
    c as int - '0' as int
}

/// A plus or a minus.
pub open spec fn is_sign(c: char) -> bool {
    c == '+' || c == '-'
}

/// Every character is a digit.
pub open spec fn all_digits(s: Seq<char>) -> bool {
    forall|i: int| 0 <= i < s.len() ==> is_digit(#[trigger] s[i])
}

/// The number that a run of digits writes in base ten.
pub open spec fn decimal(s: Seq<char>) -> int
    decreases s.len(),
{
    if s.len() == 0 {
        0
    } else {
        10 * decimal(s.drop_last()) + digit_value(s.last())
    }
}

/// `s` without its leading sign, if it has one.
pub open spec fn unsigned(s: Seq<char>) -> Seq<char> {
    if s.len() > 0 && is_sign(s[0]) {
        s.drop_first()
    } else {
        s
    }
}

/// The signed integer that `s` writes: an optional sign, then one digit or
/// more and nothing else, with a value that a 64-bit signed integer holds.
pub open spec fn integer_of(s: Seq<char>) -> Option<int> {
    let digits = unsigned(s);
    if digits.len() == 0 || !all_digits(digits) {
        None
    } else {
        let value = if s[0] == '-' {
            -decimal(digits)
        } else {
            decimal(digits)
        };
        if i64::MIN <= value <= i64::MAX {
            Some(value)
        } else {
            None
        }
    }
}

/// A mantissa: digits with at most one point among them, before, between or
/// behind, and at least one digit.
pub open spec fn is_mantissa(m: Seq<char>) -> bool {
    ||| m.len() > 0 && all_digits(m)
    ||| exists|p: int| has_point_at(m, p)
}

/// `m` is digits, a point at index `p`, and digits, with a digit somewhere.
pub open spec fn has_point_at(m: Seq<char>, p: int) -> bool {
    &&& 0 <= p < m.len()
    &&& m.len() > 1
    &&& m[p] == '.'
    &&& all_digits(m.take(p))
    &&& all_digits(m.skip(p + 1))
}

/// An exponent: the letter e, an optional sign, then one digit or more.
pub open spec fn is_exponent(e: Seq<char>) -> bool {
    &&& e.len() > 0
    &&& lower(e[0]) == 'e'
    &&& unsigned(e.drop_first()).len() > 0
    &&& all_digits(unsigned(e.drop_first()))
}

/// `s` is a mantissa in its first `n` characters and, if anything follows,
/// an exponent behind them.
pub open spec fn is_number_split_at(s: Seq<char>, n: int) -> bool {
    &&& 0 <= n <= s.len()
    &&& is_mantissa(s.take(n))
    &&& (n == s.len() || is_exponent(s.skip(n)))
}

/// A decimal number: a mantissa, then optionally an exponent.
pub open spec fn is_number(s: Seq<char>) -> bool {
    exists|n: int| is_number_split_at(s, n)
}

/// One of the words for infinity and for what is no number, in any ASCII
/// case.
pub open spec fn is_special(s: Seq<char>) -> bool {
    let l = lowercase(s);
    l == "inf"@ || l == "infinity"@ || l == "nan"@
}

/// The texts that write a floating-point number: an optional sign, then a
/// decimal number or one of the special words.
pub open spec fn is_float_literal(s: Seq<char>) -> bool {
    is_special(unsigned(s)) || is_number(unsigned(s))
}

/// A prefix of a run of digits writes no larger a number than the run.
pub proof fn lemma_decimal_prefix(s: Seq<char>, k: int)
    requires
        all_digits(s),
        0 <= k <= s.len(),
    ensures
        0 <= decimal(s.take(k)) <= decimal(s),
    decreases s.len(),
{
    if k == s.len() {
        assert(s.take(k) =~= s);
        if s.len() > 0 {
            lemma_decimal_prefix(s.drop_last(), k - 1);
        }
    } else {
        assert(s.drop_last().take(k) =~= s.take(k));
        lemma_decimal_prefix(s.drop_last(), k);
    }
}

/// Tells whether `c` is a digit.
pub fn is_ascii_digit(c: char) -> (r: bool)
    ensures
        r == is_digit(c),
{
    '0' <= c && c <= '9'
}

/// One digit more, written behind a run of digits, multiplies by ten and adds.
pub proof fn lemma_decimal_step(s: Seq<char>, k: int)
    requires
        0 <= k < s.len(),
    ensures
        decimal(s.take(k + 1)) == 10 * decimal(s.take(k)) + digit_value(s[k]),
        all_digits(s.take(k)) && is_digit(s[k]) ==> all_digits(s.take(k + 1)),
{
    assert(s.take(k + 1).drop_last() =~= s.take(k));
}

/// Reads the number that the digits `word` write, as long as it does not
/// pass `limit`.
fn parse_digits(word: &[char], limit: u128) -> (r: Option<u128>)
    requires
        limit <= 0x8000_0000_0000_0000,
    ensures
        match r {
            Some(n) => all_digits(word@) && n == decimal(word@) && n <= limit,
            None => !all_digits(word@) || decimal(word@) > limit,
        },
{
    let mut i: usize = 0;
    let mut acc: u128 = 0;
    while i < word.len()
        invariant
            i <= word.len(),
            all_digits(word@.take(i as int)),
            acc == decimal(word@.take(i as int)),
            acc <= limit <= 0x8000_0000_0000_0000,
        decreases word.len() - i,
    {
        let c = word[i];
        proof {
            lemma_decimal_step(word@, i as int);
        }
        if !is_ascii_digit(c) {
            return None;
        }
        let value: u128 = (c as u32 - '0' as u32) as u128;
        let next: u128 = acc * 10 + value;
        if next > limit {
            proof {
                if all_digits(word@) {
                    lemma_decimal_prefix(word@, i + 1);
                }
            }
            return None;
        }
        acc = next;
        i += 1;
    }
    assert(word@.take(word.len() as int) =~= word@);
    Some(acc)
}

/// Reads the signed integer that `word` writes.
pub fn parse_integer(word: &[char]) -> (r: Option<i64>)
    ensures
        match r {
            Some(n) => integer_of(word@) == Some(n as int),
            None => integer_of(word@) is None,
        },
{
    let negative = word.len() > 0 && word[0] == '-';
    let digits = strip_sign(word);
    if digits.len() == 0 {
        return None;
    }
    let limit: u128 = if negative {
        0x8000_0000_0000_0000
    } else {
        0x7fff_ffff_ffff_ffff
    };
    match parse_digits(digits, limit) {
        None => None,
        Some(magnitude) => {
            if !negative {
                Some(magnitude as i64)
            } else if magnitude == 0x8000_0000_0000_0000 {
                Some(i64::MIN)
            } else {
                Some(0 - (magnitude as i64))
            }
        },
    }
}

/// Drops the leading sign of `word`, if it has one.
pub fn strip_sign(word: &[char]) -> (rest: &[char])
    ensures
        rest@ == unsigned(word@),
{
    if word.len() > 0 && (word[0] == '+' || word[0] == '-') {
        slice_subrange(word, 1, word.len())
    } else {
        word
    }
}

/// The digits of `s` that start at `from` end at `end`: what lies between
/// is digits, and a digit follows no further.
spec fn digit_run(s: Seq<char>, from: int, end: int) -> bool {
    &&& 0 <= from <= end <= s.len()
    &&& forall|i: int| from <= i < end ==> is_digit(#[trigger] s[i])
    &&& (end == s.len() || !is_digit(s[end]))
}

/// Finds where the digits that start at `from` end.
fn scan_digits(word: &[char], from: usize) -> (end: usize)
    requires
        from <= word.len(),
    ensures
        digit_run(word@, from as int, end as int),
{
    let mut i: usize = from;
    while i < word.len() && is_ascii_digit(word[i])
        invariant
            from <= i <= word.len(),
            forall|j: int| from <= j < i ==> is_digit(#[trigger] word@[j]),
        decreases word.len() - i,
    {
        i += 1;
    }
    i
}

/// What a scan of `s` for a mantissa finds: digits up to `point`, then, if
/// `pointed`, a point and digits up to `end`, else nothing more.
spec fn mantissa_scan(s: Seq<char>, point: int, pointed: bool, end: int) -> bool {
    &&& digit_run(s, 0, point)
    &&& pointed == (point < s.len() && s[point] == '.')
    &&& if pointed {
        digit_run(s, point + 1, end)
    } else {
        end == point
    }
}

/// The number of digits that such a scan has passed.
spec fn scanned_digits(point: int, pointed: bool, end: int) -> int {
    if pointed {
        end - 1
    } else {
        end
    }
}

/// A scan that has passed a digit has passed a mantissa.
proof fn lemma_scan_gives_mantissa(s: Seq<char>, point: int, pointed: bool, end: int)
    requires
        mantissa_scan(s, point, pointed, end),
        scanned_digits(point, pointed, end) > 0,
    ensures
        is_mantissa(s.take(end)),
{
    let m = s.take(end);
    if pointed {
        assert(all_digits(m.take(point)));
        assert(all_digits(m.skip(point + 1)));
        assert(has_point_at(m, point));
    } else {
        assert(all_digits(m));
    }
}

/// A mantissa that is followed by nothing, or by what is neither a digit
/// nor a point, ends where the scan ends, and the scan has passed a digit.
proof fn lemma_mantissa_ends_with_scan(
    s: Seq<char>,
    point: int,
    pointed: bool,
    end: int,
    n: int,
)
    requires
        mantissa_scan(s, point, pointed, end),
        0 <= n <= s.len(),
        is_mantissa(s.take(n)),
        n == s.len() || (!is_digit(s[n]) && s[n] != '.'),
    ensures
        n == end,
        scanned_digits(point, pointed, end) > 0,
{
    let m = s.take(n);
    if m.len() > 0 && all_digits(m) {
        assert forall|i: int| 0 <= i < n implies is_digit(s[i]) by {
            assert(m[i] == s[i]);
        }
    } else {
        let p = choose|p: int| has_point_at(m, p);
        assert forall|i: int| 0 <= i < p implies is_digit(s[i]) by {
            assert(m.take(p)[i] == s[i]);
        }
        assert forall|i: int| p < i < n implies is_digit(s[i]) by {
            assert(m.skip(p + 1)[i - p - 1] == s[i]);
        }
    }
}

/// Tells whether `word` is a decimal number.
fn is_decimal_number(word: &[char]) -> (r: bool)
    ensures
        r == is_number(word@),
{
    let point = scan_digits(word, 0);
    let pointed = point < word.len() && word[point] == '.';
    let end = if pointed {
        scan_digits(word, point + 1)
    } else {
        point
    };
    let digits = if pointed {
        end - 1
    } else {
        end
    };
    let ghost s = word@;
    proof {
        if digits > 0 {
            lemma_scan_gives_mantissa(s, point as int, pointed, end as int);
        }
        assert forall|n: int| is_number_split_at(s, n) implies n == end && digits > 0 by {
            lemma_mantissa_ends_with_scan(s, point as int, pointed, end as int, n);
        }
    }
    if digits == 0 {
        return false;
    }
    if end == word.len() {
        assert(is_number_split_at(s, end as int));
        return true;
    }
    if word[end] != 'e' && word[end] != 'E' {
        return false;
    }
    let exponent = strip_sign(slice_subrange(word, end + 1, word.len()));
    assert(s.skip(end as int).drop_first() =~= s.subrange(end + 1, s.len() as int));
    if exponent.len() == 0 {
        return false;
    }
    let stop = scan_digits(exponent, 0);
    if stop == exponent.len() {
        assert(is_number_split_at(s, end as int));
        true
    } else {
        false
    }
}

/// Tells whether `word` writes a floating-point number.
pub fn is_float(word: &[char]) -> (r: bool)
    ensures
        r == is_float_literal(word@),
{
    let body = strip_sign(word);
    reads_as(body, "inf") || reads_as(body, "infinity") || reads_as(body, "nan")
        || is_decimal_number(body)
}

} // verus!
