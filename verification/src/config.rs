//! What a search is run with, and how it is read from command-line
//! arguments.

use vstd::prelude::*;
use crate::substring::same_text;

verus! {

/// The settings of one search.
pub struct Config {
    /// The text to look for.
    pub query: String,
    /// The file to look in.
    pub filename: String,
    /// Whether letter case counts.
    pub case_sensitive: bool,
}

/// Where the scan for flags stops: at the first empty argument from index
/// `from` on, or behind the last argument.
pub open spec fn flags_end(args: Seq<Seq<char>>, from: int) -> int
    decreases args.len() - from,
{
    if from >= args.len() || args[from].len() == 0 {
        from
    } else {
        flags_end(args, from + 1)
    }
}

/// Whether the arguments ask for a search without regard to case: `-i`
/// stands among the flags, which follow the file name.
pub open spec fn ignores_case(args: Seq<Seq<char>>) -> bool {
    exists|i: int| 3 <= i < flags_end(args, 3) && args[i] == "-i"@
}

impl Config {
    /// Reads the settings from the arguments of the program: its own name,
    /// the query, the file name, then flags.
    pub fn new(args: &[String]) -> (parsed: Result<Config, &'static str>)
        ensures
            match parsed {
                Ok(config) => {
                    &&& args.len() >= 3
                    &&& config.query@ == args[1]@
                    &&& config.filename@ == args[2]@
                    &&& config.case_sensitive == !ignores_case(args.deep_view())
                },
                Err(message) => {
                    &&& args.len() < 3
                    &&& message@ == if args.len() < 2 {
                        "Didn't get a query string"@
                    } else {
                        "Didn't get file name"@
                    }
                },
            },
    {
        if args.len() < 2 {
            return Err("Didn't get a query string");
        }
        if args.len() < 3 {
            return Err("Didn't get file name");
        }
        let mut case_sensitive = true;
        let mut i: usize = 3;
        while i < args.len() && !args[i].as_str().is_empty()
            invariant
                3 <= i <= args.len(),
                flags_end(args.deep_view(), 3) == flags_end(args.deep_view(), i as int),
                case_sensitive == !(exists|j: int| 3 <= j < i && args.deep_view()[j] == "-i"@),
            decreases args.len() - i,
        {
            if same_text(args[i].as_str(), "-i") {
                case_sensitive = false;
            }
            i += 1;
        }
        Ok(Config { query: args[1].clone(), filename: args[2].clone(), case_sensitive })
    }
}

} // verus!
