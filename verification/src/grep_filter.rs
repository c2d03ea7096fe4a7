//! A second take on the line search: the same searching behaviour as
//! [`crate::grep`], with a configuration parser that reads the argument
//! list one value at a time and reports which value was missing.

use crate::text::{keep_matching, keep_matching_ci, lines_of, str_views};
use vstd::prelude::*;

verus! {

/// What a search run needs: the query, the name of the file to search,
/// and whether matching is case sensitive.
pub struct Config {
    pub query: String,
    pub filename: String,
    pub case_sensitive: bool,
}

impl Config {
    /// Parses a command line laid out as program name, query and file
    /// name, naming the first missing value in the error.  Matching is
    /// case sensitive exactly when the caller reports the
    /// case-insensitivity environment variable unset.
    pub fn new(args: &[String], env_case_insensitive: bool) -> (r: Result<Config, &'static str>)
        ensures
            args@.len() < 2 ==> (r matches Err(m) && m@ == "Didn't get a query string"@),
            args@.len() == 2 ==> (r matches Err(m) && m@ == "Didn't get a file name"@),
            args@.len() >= 3 ==> (r matches Ok(c) && c.query@ == args@[1]@ && c.filename@
                == args@[2]@ && c.case_sensitive == !env_case_insensitive),
    {
        if args.len() < 2 {
            return Err("Didn't get a query string");
        }
        if args.len() < 3 {
            return Err("Didn't get a file name");
        }
        let query = args[1].clone();
        let filename = args[2].clone();
        let case_sensitive = !env_case_insensitive;
        Ok(Config { query, filename, case_sensitive })
    }
}

/// The lines of `contents` that contain `query`, in order.
pub fn search<'a>(query: &str, contents: &'a str) -> (r: Vec<&'a str>)
    ensures
        str_views(r@) =~= keep_matching(lines_of(contents@), query@),
{
    crate::grep::search(query, contents)
}

/// The lines of `contents` whose lowercase form contains the lowercase
/// form of `query`, in order; the lines come back in their original case.
pub fn search_case_insensitive<'a>(query: &str, contents: &'a str) -> (r: Vec<&'a str>)
    ensures
        str_views(r@) =~= keep_matching_ci(lines_of(contents@), query@),
{
    crate::grep::search_case_insensitive(query, contents)
}

} // verus!
