use vstd::prelude::*;
use crate::failure::ParseFailure;
use crate::text::{chars_of, lowercase, reads_as};

verus! {

/// How a benchmark was run.
#[derive(Clone, Copy, Debug, PartialEq, Eq, Structural)]
pub enum Mode {
    AverageTime,
    SampleTime,
    SingleShotTime,
    Throughput,
}

impl Mode {
    /// The short token that stands for the mode in a report.
    pub open spec fn token(self) -> Seq<char> {
        match self {
            Mode::AverageTime => "avgt"@,
            Mode::SampleTime => "sample"@,
            Mode::SingleShotTime => "ss"@,
            Mode::Throughput => "thrpt"@,
        }
    }

    /// The mode that `t` names, without regard to ASCII case.
    pub open spec fn of_token(t: Seq<char>) -> Option<Mode> {
        let l = lowercase(t);
        if l == "thrpt"@ {
            Some(Mode::Throughput)
        } else if l == "avgt"@ {
            Some(Mode::AverageTime)
        } else if l == "sample"@ {
            Some(Mode::SampleTime)
        } else if l == "ss"@ {
            Some(Mode::SingleShotTime)
        } else {
            None
        }
    }

    /// Reads a mode from the characters of its token.
    pub fn of_chars(word: &[char]) -> (r: Option<Mode>)
        ensures
            r == Mode::of_token(word@),
    {
        if reads_as(word, "thrpt") {
            Some(Mode::Throughput)
        } else if reads_as(word, "avgt") {
            Some(Mode::AverageTime)
        } else if reads_as(word, "sample") {
            Some(Mode::SampleTime)
        } else if reads_as(word, "ss") {
            Some(Mode::SingleShotTime)
        } else {
            None
        }
    }

    /// Reads a mode from its token. Capitals and small letters count alike;
    /// anything but the four tokens is refused.
    pub fn from_str(s: &str) -> (r: Result<Mode, ParseFailure>)
        ensures
            r == match Mode::of_token(s@) {
                Some(m) => Ok::<Mode, ParseFailure>(m),
                None => Err(ParseFailure::InvalidMode),
            },
    {
        let word = chars_of(s);
        match Mode::of_chars(word.as_slice()) {
            Some(m) => Ok(m),
            None => Err(ParseFailure::InvalidMode),
        }
    }

    /// The mode's token.
    pub fn as_str(self) -> (r: &'static str)
        ensures
            r@ == self.token(),
    {
        match self {
            Mode::SampleTime => "sample",
            Mode::Throughput => "thrpt",
            Mode::SingleShotTime => "ss",
            Mode::AverageTime => "avgt",
        }
    }

    /// The mode's token, as an owned string.
    pub fn to_string(self) -> (r: String)
        ensures
            r@ == self.token(),
    {
        self.as_str().to_owned()
    }
}

/// Every mode is read back from its own token.
pub proof fn lemma_token_names_its_mode(m: Mode)
    ensures
        Mode::of_token(m.token()) == Some(m),
{
    reveal_strlit("avgt");
    reveal_strlit("sample");
    reveal_strlit("ss");
    reveal_strlit("thrpt");
    assert(lowercase(m.token()) =~= m.token());
}

/// Reading a token and writing the mode out again gives the token in small
/// letters.
pub proof fn lemma_read_then_written(t: Seq<char>)
    requires
        Mode::of_token(t) is Some,
    ensures
        Mode::of_token(t)->0.token() == lowercase(t),
{
}

} // verus!
