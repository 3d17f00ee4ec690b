//! Parsing the command line into a `Config` and running a configured
//! search.
//!
//! The first token is the program name and is discarded; the next two
//! become the query and the file path; a literal `--ignore-case` among the
//! remaining tokens, or the presence of the `IGNORE_CASE` environment
//! variable (reported by the caller as a boolean), turns on
//! case-insensitive search.

use vstd::prelude::*;

use crate::search::search;
use crate::search::search_case_insensitive;
use crate::search::search_matches;
use crate::search::search_matches_ci;
use crate::text::eq_str;

verus! {

/// Why a command line could not be turned into a `Config`.
#[derive(Clone, Copy, Debug, PartialEq, Eq, Structural)]
pub enum ParseError {
    /// No token was left for the query.
    MissingQuery,
    /// No token was left for the file path.
    MissingFilePath,
}

impl ParseError {
    /// A human-readable description of the error.
    pub fn message(&self) -> (m: &'static str)
        ensures
            self is MissingQuery ==> m@ == "Didn't get a query string"@,
            self is MissingFilePath ==> m@ == "Didn't get a filepath"@,
    {
        match self {
            ParseError::MissingQuery => "Didn't get a query string",
            ParseError::MissingFilePath => "Didn't get a filepath",
        }
    }
}

/// Whether a literal `--ignore-case` token stands after the two positional
/// arguments; one in the query or file path position is data, not a flag.
pub open spec fn has_ignore_case_flag(tokens: Seq<Seq<char>>) -> bool {
    exists|k: int| 3 <= k < tokens.len() && tokens[k] == "--ignore-case"@
}

/// The parsed run parameters: what to search for, in which file, and
/// whether to ignore case.
pub struct Config {
    /// The text to search for.
    pub query: String,
    /// The path of the file to search.
    pub file_path: String,
    /// Whether lines are matched up to lowercasing.
    pub ignore_case: bool,
}

impl Config {
    /// Parse command line tokens into a `Config`. The first token is the
    /// program name and is skipped; the second and third become the query
    /// and the file path; `--ignore-case` among the later tokens, or a set
    /// `IGNORE_CASE` environment variable (passed here as
    /// `env_ignore_case`), selects case-insensitive search.
    pub fn build(args: &Vec<String>, env_ignore_case: bool) -> (result: Result<Config, ParseError>)
        ensures
            match result {
                Ok(config) => {
                    &&& args@.len() >= 3
                    &&& config.query@ == args@[1]@
                    &&& config.file_path@ == args@[2]@
                    &&& config.ignore_case == (has_ignore_case_flag(args.deep_view())
                        || env_ignore_case)
                },
                Err(ParseError::MissingQuery) => args@.len() <= 1,
                Err(ParseError::MissingFilePath) => args@.len() == 2,
            },
    {
        if args.len() <= 1 {
            return Err(ParseError::MissingQuery);
        }
        if args.len() <= 2 {
            return Err(ParseError::MissingFilePath);
        }
        let query = args[1].clone();
        let file_path = args[2].clone();
        let mut flag = false;
        let mut k: usize = 3;
        while k < args.len()
            invariant
                3 <= k <= args@.len(),
                flag ==> has_ignore_case_flag(args.deep_view()),
                !flag ==> forall|t: int| 3 <= t < k ==> args.deep_view()[t] != "--ignore-case"@,
            decreases args@.len() - k,
        {
            if eq_str(args[k].as_str(), "--ignore-case") {
                proof {
                    assert(args.deep_view()[k as int] == args@[k as int]@);
                }
                flag = true;
            }
            k = k + 1;
        }
        proof {
            if !flag {
                assert forall|t: int| 3 <= t < args.deep_view().len() implies args.deep_view()[t]
                    != "--ignore-case"@ by {
                    assert(args.deep_view()[t] == args@[t]@);
                }
            }
        }
        Ok(Config { query, file_path, ignore_case: flag || env_ignore_case })
    }

    /// The lines of `contents` that this configuration's search selects:
    /// the case-insensitive matches of the query when `ignore_case` is set,
    /// its case-sensitive matches otherwise.
    pub fn matching_lines<'a>(&self, contents: &'a str) -> (matches: Vec<&'a str>)
        ensures
            matches.deep_view() == if self.ignore_case {
                search_matches_ci(self.query@, contents@)
            } else {
                search_matches(self.query@, contents@)
            },
    {
        if self.ignore_case {
            search_case_insensitive(self.query.as_str(), contents)
        } else {
            search(self.query.as_str(), contents)
        }
    }
}

} // verus!
