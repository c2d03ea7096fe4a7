use toolbox::grep;
use toolbox::grep_filter;

#[test]
fn case_sensitive() {
    let query = "duct";
    let contents = "\
Rust:
safe, fast, productive.
Pick three.
Duct tape.";

    assert_eq!(vec!["safe, fast, productive."], grep::search(query, contents));
}

#[test]
fn case_insensitive() {
    let query = "rUsT";
    let contents = "\
Rust:
safe, fast, productive.
Pick three.
Trust me.";

    assert_eq!(
        vec!["Rust:", "Trust me."],
        grep::search_case_insensitive(query, contents)
    );
}

#[test]
fn functional_language_features_iterators_and_closures_13_case_sensitive() {
    let query = "duct";
    let contents = "\
Rust:
safe, fast, productive.
Pick three.
Duct tape.";

    assert_eq!(
        vec!["safe, fast, productive."],
        grep_filter::search(query, contents)
    );
}

#[test]
fn functional_language_features_iterators_and_closures_13_case_insensitive() {
    let query = "rUsT";
    let contents = "\
Rust:
safe, fast, productive.
Pick three.
Trust me.";

    assert_eq!(
        vec!["Rust:", "Trust me."],
        grep_filter::search_case_insensitive(query, contents)
    );
}

#[test]
fn config_from_arguments() {
    let args: Vec<String> = vec!["minigrep", "duct", "src/main.rs"]
        .into_iter()
        .map(|a| a.to_string())
        .collect();
    let config = grep::Config::new(&args, false).unwrap();
    assert_eq!(config.query, "duct");
    assert_eq!(config.filename, "src/main.rs");
    assert!(config.case_sensitive);

    let args: Vec<String> = vec!["minigrep", "duct", "src/main.rs", "--case-insensitive"]
        .into_iter()
        .map(|a| a.to_string())
        .collect();
    let config = grep::Config::new(&args, false).unwrap();
    assert!(!config.case_sensitive);

    // The environment variable decides only when no flag argument is given.
    let args: Vec<String> = vec!["minigrep", "duct", "src/main.rs"]
        .into_iter()
        .map(|a| a.to_string())
        .collect();
    let config = grep::Config::new(&args, true).unwrap();
    assert!(!config.case_sensitive);

    let args: Vec<String> = vec!["minigrep", "duct", "src/main.rs", "false"]
        .into_iter()
        .map(|a| a.to_string())
        .collect();
    let config = grep::Config::new(&args, true).unwrap();
    assert!(config.case_sensitive);

    let args: Vec<String> = vec!["minigrep"].into_iter().map(|a| a.to_string()).collect();
    match grep::Config::new(&args, false) {
        Err(m) => assert_eq!(m, "not enough arguments"),
        Ok(_) => panic!("expected an error"),
    }
}

#[test]
fn config_from_arguments_one_at_a_time() {
    let args: Vec<String> = vec!["minigrep", "duct", "notes.txt"]
        .into_iter()
        .map(|a| a.to_string())
        .collect();
    let config = grep_filter::Config::new(&args, false).unwrap();
    assert_eq!(config.query, "duct");
    assert_eq!(config.filename, "notes.txt");
    assert!(config.case_sensitive);

    let args: Vec<String> = vec!["minigrep"].into_iter().map(|a| a.to_string()).collect();
    match grep_filter::Config::new(&args, false) {
        Err(m) => assert_eq!(m, "Didn't get a query string"),
        Ok(_) => panic!("expected an error"),
    }

    let args: Vec<String> = vec!["minigrep", "duct"]
        .into_iter()
        .map(|a| a.to_string())
        .collect();
    match grep_filter::Config::new(&args, false) {
        Err(m) => assert_eq!(m, "Didn't get a file name"),
        Ok(_) => panic!("expected an error"),
    }
}

#[test]
fn empty_query_matches_every_line() {
    let contents = "one\ntwo\n";
    assert_eq!(vec!["one", "two"], grep::search("", contents));
}

#[test]
fn windows_line_endings_are_shed() {
    assert_eq!(vec!["alpha", "beta"], grep::search("", "alpha\r\nbeta"));
}
