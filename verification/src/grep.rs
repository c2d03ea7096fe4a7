//! Searching a body of text for the lines that contain a query, with an
//! optional case-insensitive mode, and the configuration that drives it.

use crate::text::{
    keep_matching, keep_matching_ci, lines_of, lower_of, lowercase, split_lines, str_contains,
    str_views,
};
use vstd::prelude::*;

verus! {

/// What a search run needs: the query, the name of the file to search,
/// and whether matching is case sensitive.
pub struct Config {
    pub query: String,
    pub filename: String,
    pub case_sensitive: bool,
}

impl Config {
    /// Parses a command line laid out as program name, query, file name,
    /// and an optional case flag.  When the flag argument is present,
    /// anything but `--case-insensitive` means case-sensitive matching;
    /// when it is absent, matching is case sensitive exactly when the
    /// caller reports the case-insensitivity environment variable unset
    /// (`env_case_insensitive` false).
    pub fn new(args: &[String], env_case_insensitive: bool) -> (r: Result<Config, &'static str>)
        ensures
            args@.len() < 3 ==> (r matches Err(m) && m@ == "not enough arguments"@),
            args@.len() >= 3 ==> (r matches Ok(c) && c.query@ == args@[1]@ && c.filename@
                == args@[2]@ && c.case_sensitive == (if args@.len() > 3 {
                args@[3]@ != "--case-insensitive"@
            } else {
                !env_case_insensitive
            })),
    {
        if args.len() < 3 {
            return Err("not enough arguments");
        }
        let query = args[1].clone();
        let filename = args[2].clone();

        let case_sensitive = if args.len() > 3 {
            let flag = "--case-insensitive".to_owned();
            !(args[3] == flag)
        } else {
            !env_case_insensitive
        };

        Ok(Config { query, filename, case_sensitive })
    }
}

/// The lines of `contents` that contain `query`, in order.
pub fn search<'a>(query: &str, contents: &'a str) -> (r: Vec<&'a str>)
    ensures
        str_views(r@) =~= keep_matching(lines_of(contents@), query@),
{
    let lines = split_lines(contents);
    let mut r: Vec<&'a str> = Vec::new();
    let mut i: usize = 0;
    let ghost all = str_views(lines@);
    proof {
        assert(all.skip(0) =~= all);
        assert(str_views(r@) =~= Seq::<Seq<char>>::empty());
    }
    while i < lines.len()
        invariant
            i <= lines@.len(),
            all == str_views(lines@),
            all =~= lines_of(contents@),
            keep_matching(lines_of(contents@), query@) =~= str_views(r@) + keep_matching(
                all.skip(i as int),
                query@,
            ),
        decreases lines@.len() - i,
    {
        let line = lines[i];
        let ghost views0 = str_views(r@);
        proof {
            assert(all.skip(i as int)[0] == line@);
            assert(all.skip(i as int).drop_first() =~= all.skip(i + 1));
        }
        if str_contains(line, query) {
            r.push(line);
            proof {
                assert(str_views(r@) =~= views0.push(line@));
            }
        }
        i = i + 1;
    }
    proof {
        assert(all.skip(lines@.len() as int).len() == 0);
    }
    r
}

/// The lines of `contents` whose lowercase form contains the lowercase
/// form of `query`, in order; the lines come back in their original case.
pub fn search_case_insensitive<'a>(query: &str, contents: &'a str) -> (r: Vec<&'a str>)
    ensures
        str_views(r@) =~= keep_matching_ci(lines_of(contents@), query@),
{
    let query_lower = lowercase(query);
    let lines = split_lines(contents);
    let mut r: Vec<&'a str> = Vec::new();
    let mut i: usize = 0;
    let ghost all = str_views(lines@);
    proof {
        assert(all.skip(0) =~= all);
        assert(str_views(r@) =~= Seq::<Seq<char>>::empty());
    }
    while i < lines.len()
        invariant
            i <= lines@.len(),
            all == str_views(lines@),
            all =~= lines_of(contents@),
            query_lower@ == lower_of(query@),
            keep_matching_ci(lines_of(contents@), query@) =~= str_views(r@) + keep_matching_ci(
                all.skip(i as int),
                query@,
            ),
        decreases lines@.len() - i,
    {
        let line = lines[i];
        let ghost views0 = str_views(r@);
        proof {
            assert(all.skip(i as int)[0] == line@);
            assert(all.skip(i as int).drop_first() =~= all.skip(i + 1));
        }
        let line_lower = lowercase(line);
        if str_contains(line_lower.as_str(), query_lower.as_str()) {
            r.push(line);
            proof {
                assert(str_views(r@) =~= views0.push(line@));
            }
        }
        i = i + 1;
    }
    proof {
        assert(all.skip(lines@.len() as int).len() == 0);
    }
    r
}

} // verus!
