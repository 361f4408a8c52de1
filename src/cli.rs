use vstd::prelude::*;

use crate::search::{
    line_views, matching_lines, numbered_matches, numbered_views, search, search_case_insensitive,
    search_case_insensitive_with_line_numbers, search_with_line_numbers,
};

verus! {

/// What to search for, and in which file.
pub struct Config {
    pub query: String,
    pub filename: String,
}

impl Config {
    /// Reads the query and the file name from `args`, where `args[0]` is the
    /// program's name. Fails when either is missing.
    pub fn new(args: &[String]) -> (r: Result<Config, &str>)
        ensures
            r is Err <==> args@.len() < 3,
            r matches Err(e) ==> e@ == "Not enough arguments"@,
            r matches Ok(c) ==> c.query@ == args@[1]@ && c.filename@ == args@[2]@,
    {
        if args.len() < 3 {
            return Err("Not enough arguments");
        }
        let query = args[1].clone();
        let filename = args[2].clone();
        Ok(Config { query, filename })
    }
}

/// How the matches are to be reported.
#[derive(Clone, Copy)]
pub struct Mode {
    pub case_sensitive: bool,
    pub line_numbers: bool,
    pub count_only: bool,
}

/// The outcome of a search in a given mode.
pub enum Report<'a> {
    /// How many lines matched.
    Count(usize),
    /// The matching lines.
    Lines(Vec<&'a str>),
    /// The matching lines, each with its 1-based number.
    Numbered(Vec<(usize, &'a str)>),
}

/// Runs the search that `mode` selects. Counting takes precedence over
/// numbering: with `count_only` set, only the number of matches is given.
pub fn report<'a>(query: &str, contents: &'a str, mode: Mode) -> (r: Report<'a>)
    ensures
        mode.count_only ==> (r matches Report::Count(n) && n == matching_lines(
            query@,
            contents@,
            !mode.case_sensitive,
        ).len()),
        !mode.count_only && !mode.line_numbers ==> (r matches Report::Lines(v) && line_views(v@)
            == matching_lines(query@, contents@, !mode.case_sensitive)),
        !mode.count_only && mode.line_numbers ==> (r matches Report::Numbered(v) && numbered_views(
            v@,
        ) == numbered_matches(query@, contents@, !mode.case_sensitive)),
{
    if !mode.count_only && mode.line_numbers {
        let v = if mode.case_sensitive {
            search_with_line_numbers(query, contents)
        } else {
            search_case_insensitive_with_line_numbers(query, contents)
        };
        return Report::Numbered(v);
    }
    let v = if mode.case_sensitive {
        search(query, contents)
    } else {
        search_case_insensitive(query, contents)
    };
    if mode.count_only {
        Report::Count(v.len())
    } else {
        Report::Lines(v)
    }
}

} // verus!
