use vstd::prelude::*;
use vstd::std_specs::iter::IteratorSpec;

verus! {

/// The two reports to compare, each named by its path.
#[derive(Debug, PartialEq, Eq)]
pub struct Config {
    /// The path of the new report.
    pub new_file: String,
    /// The path of the old report.
    pub old_file: String,
}

/// What is said when the path of the old report is not given.
pub open spec fn missing_old_file() -> Seq<char> {
    "Didn't get a old_file path"@
}

/// What is said when the path of the new report is not given.
pub open spec fn missing_new_file() -> Seq<char> {
    "Didn't get a new_file path"@
}

impl Config {
    /// Takes the paths of the two reports from the arguments of the
    /// program. The first argument is the program's own name and is passed
    /// over; the next is the path of the old report, the one behind it the
    /// path of the new report, and further arguments are not looked at. An
    /// argument that is not there is an error, the old path before the new.
    ///
    /// What is promised of the paths holds for a source of arguments that
    /// hands out a fixed run of items and then ends for good. Of any source
    /// it holds that an error is one of the two messages.
    pub fn build(mut args: impl Iterator<Item = String>) -> (r: Result<Config, &'static str>)
        ensures
            args.obeys_prophetic_iter_laws() ==> match r {
                Ok(config) => {
                    &&& args.remaining().len() >= 3
                    &&& config.old_file == args.remaining()[1]
                    &&& config.new_file == args.remaining()[2]
                },
                Err(message) => {
                    &&& args.remaining().len() < 3
                    &&& message@ == if args.remaining().len() < 2 {
                        missing_old_file()
                    } else {
                        missing_new_file()
                    }
                },
            },
            r matches Err(message) ==> message@ == missing_old_file() || message@
                == missing_new_file(),
    {
        args.next();

        let old_file = match args.next() {
            Some(arg) => arg,
            None => return Err("Didn't get a old_file path"),
        };

        let new_file = match args.next() {
            Some(arg) => arg,
            None => return Err("Didn't get a new_file path"),
        };

        Ok(Config { new_file, old_file })
    }
}

} // verus!
