use vstd::prelude::*;
use crate::number::{is_float, is_float_literal};
use crate::text::{chars_of, string_of};

verus! {

/// A measured value, kept as the text that the report gives for it. The text
/// always writes a floating-point number, so whoever needs the number can
/// read it from the text without a failure.
#[derive(Debug, PartialEq, Eq)]
pub struct Measurement {
    text: String,
}

impl View for Measurement {
    type V = Seq<char>;

    closed spec fn view(&self) -> Seq<char> {
        self.text@
    }
}

impl Measurement {
    #[verifier::type_invariant]
    spec fn writes_a_number(self) -> bool {
        is_float_literal(self.text@)
    }

    /// Takes the characters of a field as a measurement, if they write a
    /// floating-point number.
    pub fn of_chars(word: &[char]) -> (r: Option<Measurement>)
        ensures
            match r {
                Some(m) => is_float_literal(word@) && m@ == word@,
                None => !is_float_literal(word@),
            },
    {
        if is_float(word) {
            Some(Measurement { text: string_of(word) })
        } else {
            None
        }
    }

    /// Takes `token` as a measurement, if it writes a floating-point number.
    pub fn parse(token: &str) -> (r: Option<Measurement>)
        ensures
            match r {
                Some(m) => is_float_literal(token@) && m@ == token@,
                None => !is_float_literal(token@),
            },
    {
        let word = chars_of(token);
        Measurement::of_chars(word.as_slice())
    }

    /// The text of the measurement.
    pub fn as_str(&self) -> (r: &str)
        ensures
            r@ == self@,
            is_float_literal(r@),
    {
        proof {
            use_type_invariant(self);
        }
        self.text.as_str()
    }
}

impl Clone for Measurement {
    fn clone(&self) -> (r: Self)
        ensures
            r@ == self@,
    {
        proof {
            use_type_invariant(self);
        }
        Measurement { text: self.text.clone() }
    }
}

} // verus!
