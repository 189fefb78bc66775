use fuzzy_path::document::Document;
use fuzzy_path::fuzzy::{
    build_fuzzy_regex_filter, directory_marker, fuzzy_filter, fuzzy_pattern_text, keep_matching,
    meta_character,
};
use fuzzy_path::pipeline::{exact_paths, fuzzy_path_match, fuzzy_tokens, join_lines, path_search};
use fuzzy_path::search::{
    exact_hits, search_request, search_url, token_hits, Reply, EXACT_MAX_HITS, FUZZY_MAX_HITS,
};

fn doc(path: &str, repo_ref: &str) -> Document {
    Document {
        relative_path: path.to_string(),
        repo_name: "repo".to_string(),
        lang: "rust".to_string(),
        repo_ref: repo_ref.to_string(),
    }
}

fn strings(items: &[&str]) -> Vec<String> {
    items.iter().map(|s| s.to_string()).collect()
}

fn websrv_results() -> Vec<Vec<Document>> {
    fuzzy_tokens("websrv")
        .iter()
        .map(|token| match token.as_str() {
            "web" => vec![doc("webserver.rs", "r"), doc("config/websrv.toml", "r")],
            "srv" => vec![doc("webserver.rs", "r")],
            _ => Vec::new(),
        })
        .collect()
}

#[test]
fn fuzzy_pattern_interleaves_wildcards() {
    assert_eq!(fuzzy_pattern_text("websrv"), "w.*?e.*?b.*?s.*?r.*?v");
    assert_eq!(fuzzy_pattern_text("a"), "a");
    assert_eq!(fuzzy_pattern_text(""), "");
}

#[test]
fn fuzzy_pattern_escapes_meta_characters() {
    assert_eq!(fuzzy_pattern_text("a.b"), "a.*?\\..*?b");
    assert_eq!(fuzzy_pattern_text("(x)"), "\\(.*?x.*?\\)");
    assert_eq!(fuzzy_pattern_text("*"), "\\*");
    assert_eq!(fuzzy_pattern_text("a/b_c"), "a.*?/.*?b.*?_.*?c");
}

#[test]
fn fuzzy_pattern_escapes_as_the_regex_crate_does() {
    for code in 0u32..128 {
        let c = char::from_u32(code).unwrap();
        let text = c.to_string();
        assert_eq!(fuzzy_pattern_text(&text), regex::escape(&text));
        assert_eq!(meta_character(c), regex::escape(&text).len() == 2);
    }
    assert_eq!(fuzzy_pattern_text("é"), regex::escape("é"));
}

#[test]
fn filter_is_none_for_the_empty_query() {
    assert_eq!(build_fuzzy_regex_filter(""), None);
}

#[test]
fn filter_holds_the_pattern_of_the_query() {
    assert_eq!(build_fuzzy_regex_filter("websrv"), Some("w.*?e.*?b.*?s.*?r.*?v".to_string()));
    assert_eq!(build_fuzzy_regex_filter("a+b"), Some("a.*?\\+.*?b".to_string()));
}

#[test]
fn filter_is_none_where_the_pattern_is_too_large() {
    let query = "a".repeat(200_000);
    assert_eq!(build_fuzzy_regex_filter(&query), None);
    assert!(fuzzy_filter(&query, &vec![query.clone()], 10).is_empty());
}

#[test]
fn directory_markers_end_in_a_separator() {
    assert!(directory_marker("src/"));
    assert!(directory_marker("/"));
    assert!(!directory_marker("src/main.rs"));
    assert!(!directory_marker(""));
}

#[test]
fn keep_matching_keeps_flagged_files_up_to_the_limit() {
    let paths = strings(&["a", "b/", "c", "d", "e"]);
    let flags = vec![true, true, false, true, true];
    assert_eq!(keep_matching(&paths, &flags, 10), strings(&["a", "d", "e"]));
    assert_eq!(keep_matching(&paths, &flags, 3), strings(&["a", "d", "e"]));
    assert_eq!(keep_matching(&paths, &flags, 2), strings(&["a", "d"]));
    assert_eq!(keep_matching(&paths, &flags, 0), Vec::<String>::new());
}

#[test]
fn keep_matching_counts_a_missing_flag_as_no_match() {
    let paths = strings(&["a", "b", "c"]);
    assert_eq!(keep_matching(&paths, &vec![true], 10), strings(&["a"]));
    assert_eq!(keep_matching(&paths, &Vec::new(), 10), Vec::<String>::new());
}

#[test]
fn fuzzy_filter_keeps_subsequence_matches() {
    let ranked = strings(&["webserver.rs", "README.md", "config/websrv.toml", "web/", "wbesrv"]);
    assert_eq!(
        fuzzy_filter("websrv", &ranked, 50),
        strings(&["webserver.rs", "config/websrv.toml"])
    );
}

#[test]
fn fuzzy_filter_ignores_case() {
    let ranked = strings(&["WebServer.RS", "src/Main.rs"]);
    assert_eq!(fuzzy_filter("WEBSRV", &ranked, 50), strings(&["WebServer.RS"]));
    assert_eq!(fuzzy_filter("main", &ranked, 50), strings(&["src/Main.rs"]));
}

#[test]
fn fuzzy_filter_takes_meta_characters_literally() {
    let ranked = strings(&["main.rs", "mainxrs", "a+b", "aab"]);
    assert_eq!(fuzzy_filter("n.r", &ranked, 50), strings(&["main.rs"]));
    assert_eq!(fuzzy_filter("a+b", &ranked, 50), strings(&["a+b"]));
}

#[test]
fn fuzzy_filter_rejects_everything_without_a_filter() {
    let ranked = strings(&["webserver.rs", ""]);
    assert_eq!(fuzzy_filter("", &ranked, 50), Vec::<String>::new());
}

#[test]
fn fuzzy_filter_cuts_at_the_limit() {
    let ranked = strings(&["a1", "a2", "b", "a3"]);
    assert_eq!(fuzzy_filter("a", &ranked, 2), strings(&["a1", "a2"]));
    assert_eq!(fuzzy_filter("a", &ranked, 0), Vec::<String>::new());
}

#[test]
fn search_request_scopes_the_term_to_the_field() {
    let request = search_request("relative_path", "webserver.rs", EXACT_MAX_HITS);
    assert_eq!(request.query, "relative_path:webserver.rs");
    assert_eq!(request.max_hits, 10);
}

#[test]
fn search_request_without_a_field_is_the_term() {
    let request = search_request("", "webserver.rs", FUZZY_MAX_HITS);
    assert_eq!(request.query, "webserver.rs");
    assert_eq!(request.max_hits, 100);
    assert_eq!(search_request("", "", 1).query, "");
    assert_eq!(search_request("f", "", 1).query, "f:");
}

#[test]
fn search_url_names_the_index() {
    assert_eq!(
        search_url("http://localhost:7280", "bloop"),
        "http://localhost:7280/api/v1/bloop/search"
    );
}

#[test]
fn failed_lookups_give_no_hits() {
    assert_eq!(token_hits(Reply::Hits(vec![doc("a", "r")])).len(), 1);
    assert!(token_hits(Reply::Rejected).is_empty());
    assert!(token_hits(Reply::Malformed).is_empty());
    assert!(token_hits(Reply::Unreachable).is_empty());
}

#[test]
fn exact_lookup_fails_only_where_the_index_is_unreachable() {
    assert_eq!(exact_hits(Reply::Hits(vec![doc("a", "r")])).map(|h| h.len()), Some(1));
    assert_eq!(exact_hits(Reply::Rejected).map(|h| h.len()), Some(0));
    assert_eq!(exact_hits(Reply::Malformed).map(|h| h.len()), Some(0));
    assert!(exact_hits(Reply::Unreachable).is_none());
}

#[test]
fn exact_paths_collapse_documents_that_share_a_path() {
    let hits = vec![doc("src/main.rs", "r1"), doc("src/main.rs", "r2")];
    assert_eq!(exact_paths(&hits), strings(&["src/main.rs"]));
    let hits = vec![doc("b", "r"), doc("a", "r"), doc("b", "r2"), doc("c", "r")];
    assert_eq!(exact_paths(&hits), strings(&["b", "a", "c"]));
    assert_eq!(exact_paths(&Vec::new()), Vec::<String>::new());
}

#[test]
fn search_falls_back_to_the_fuzzy_pass() {
    let results = websrv_results();
    assert_eq!(results.len(), 32);
    assert_eq!(
        fuzzy_path_match("websrv", &results, 50),
        strings(&["webserver.rs", "config/websrv.toml"])
    );
    assert_eq!(
        path_search("websrv", &Vec::new(), &results, 50),
        strings(&["webserver.rs", "config/websrv.toml"])
    );
    assert_eq!(path_search("websrv", &Vec::new(), &results, 1), strings(&["webserver.rs"]));
}

#[test]
fn search_of_the_empty_query_is_empty() {
    let no_sets: Vec<Vec<Document>> = fuzzy_tokens("").iter().map(|_| Vec::new()).collect();
    assert_eq!(path_search("", &Vec::new(), &no_sets, 50), Vec::<String>::new());
    assert_eq!(fuzzy_path_match("", &no_sets, 50), Vec::<String>::new());
    let some = vec![vec![doc("a", "r")]];
    assert_eq!(path_search("", &vec![doc("a", "r")], &some, 50), Vec::<String>::new());
    assert_eq!(join_lines(&path_search("", &Vec::new(), &no_sets, 50)), "");
}

#[test]
fn search_returns_the_exact_paths_where_there_are_any() {
    let exact = vec![doc("src/main.rs", "r1"), doc("src/main.rs", "r2")];
    let results = vec![vec![doc("src/domain.rs", "r")]];
    assert_eq!(path_search("main", &exact, &results, 50), strings(&["src/main.rs"]));
    assert_eq!(fuzzy_path_match("main", &results, 50), strings(&["src/domain.rs"]));
}

#[test]
fn search_is_repeatable() {
    let results = websrv_results();
    let first = path_search("websrv", &Vec::new(), &results, 50);
    let second = path_search("websrv", &Vec::new(), &websrv_results(), 50);
    assert_eq!(first, second);
}

#[test]
fn a_failed_lookup_counts_as_an_omitted_token() {
    let mut with_failure = websrv_results();
    with_failure.insert(3, token_hits(Reply::Rejected));
    assert_eq!(
        fuzzy_path_match("websrv", &with_failure, 50),
        fuzzy_path_match("websrv", &websrv_results(), 50)
    );
}

#[test]
fn fuzzy_pass_drops_directories_and_non_matches() {
    let results = vec![
        vec![doc("web/srv/", "r"), doc("notes.txt", "r"), doc("web/srv/mod.rs", "r")],
        vec![doc("web/srv/", "r"), doc("notes.txt", "r")],
    ];
    assert_eq!(fuzzy_path_match("websrv", &results, 50), strings(&["web/srv/mod.rs"]));
}

#[test]
fn join_lines_puts_one_path_per_line() {
    assert_eq!(join_lines(&strings(&["a", "b", "c"])), "a\nb\nc");
    assert_eq!(join_lines(&strings(&["a"])), "a");
    assert_eq!(join_lines(&Vec::new()), "");
    assert_eq!(join_lines(&strings(&["", ""])), "\n");
}
