use search::engines::{Engines, SearchEngine};
use search::SearchError;

fn names(catalog: &Engines) -> Vec<String> {
    catalog.filter("").iter().map(|e| e.name().to_string()).collect()
}

fn line_of(err: SearchError) -> String {
    match err {
        SearchError::MalformedLine(line) => line,
        other => panic!("not a malformed line: {:?}", other),
    }
}

#[test]
fn from_str_reads_name_and_url() {
    let engine = SearchEngine::from_str("ddg\thttps://duckduckgo.com/?q=").unwrap();
    assert_eq!(engine.name(), "ddg");
    assert_eq!(engine.url_fragment(), "https://duckduckgo.com/?q=");
}

#[test]
fn from_str_keeps_spaces_in_fields() {
    let engine = SearchEngine::from_str("my engine\thttps://example.org/find me/").unwrap();
    assert_eq!(engine.name(), "my engine");
    assert_eq!(engine.url_fragment(), "https://example.org/find me/");
}

#[test]
fn from_str_does_not_read_past_the_second_tab() {
    let engine = SearchEngine::from_str("a\tb\tc\td").unwrap();
    assert_eq!(engine.name(), "a");
    assert_eq!(engine.url_fragment(), "b");
}

#[test]
fn from_str_refuses_a_line_without_tab() {
    let err = SearchEngine::from_str("ddg https://duckduckgo.com/?q=").unwrap_err();
    assert_eq!(line_of(err), "ddg https://duckduckgo.com/?q=");
}

#[test]
fn from_str_refuses_the_empty_line() {
    assert_eq!(line_of(SearchEngine::from_str("").unwrap_err()), "");
}

#[test]
fn from_str_refuses_an_empty_name() {
    assert_eq!(line_of(SearchEngine::from_str("\thttps://x/").unwrap_err()), "\thttps://x/");
}

#[test]
fn from_str_refuses_an_empty_url() {
    assert_eq!(line_of(SearchEngine::from_str("ddg\t").unwrap_err()), "ddg\t");
    assert_eq!(line_of(SearchEngine::from_str("ddg\t\tx").unwrap_err()), "ddg\t\tx");
}

#[test]
fn from_str_reads_non_ascii() {
    let engine = SearchEngine::from_str("wörter\thttps://de.example/süche?q=").unwrap();
    assert_eq!(engine.name(), "wörter");
    assert_eq!(engine.url_fragment(), "https://de.example/süche?q=");
}

#[test]
fn empty_catalog_has_no_engine() {
    let catalog = Engines::empty();
    assert_eq!(catalog.len(), 0);
    assert!(catalog.filter("").is_empty());
    assert!(catalog.select("ddg").is_none());
}

#[test]
fn insert_appends_in_order() {
    let catalog = Engines::empty()
        .insert(SearchEngine::from_str("b\t1").unwrap())
        .insert(SearchEngine::from_str("a\t2").unwrap());
    assert_eq!(names(&catalog), vec!["b", "a"]);
}

#[test]
fn insert_lets_the_later_engine_win() {
    let catalog = Engines::empty()
        .insert(SearchEngine::from_str("a\tfirst").unwrap())
        .insert(SearchEngine::from_str("b\tsecond").unwrap())
        .insert(SearchEngine::from_str("a\tthird").unwrap());
    assert_eq!(catalog.len(), 2);
    assert_eq!(names(&catalog), vec!["b", "a"]);
    assert_eq!(catalog.select("a").unwrap().url_fragment(), "third");
}

#[test]
fn build_keeps_every_entry_in_order() {
    let text = "ddg\thttps://duckduckgo.com/?q=\nerr\thttps://doc.rust-lang.org/error_codes/E%s.html\nwiki\thttps://en.wikipedia.org/wiki/\n";
    let catalog = Engines::build(text).unwrap();
    assert_eq!(catalog.len(), 3);
    assert_eq!(names(&catalog), vec!["ddg", "err", "wiki"]);
    let all = catalog.filter("");
    assert_eq!(all[1].url_fragment(), "https://doc.rust-lang.org/error_codes/E%s.html");
}

#[test]
fn build_skips_blank_lines_and_comments() {
    let text = "# engines\n\nddg\thttps://duckduckgo.com/?q=\n#old\thttps://old.example/\n\n#\n\nwiki\thttps://en.wikipedia.org/wiki/\n";
    let catalog = Engines::build(text).unwrap();
    assert_eq!(names(&catalog), vec!["ddg", "wiki"]);
    assert!(Engines::build(text).unwrap().select("#old").is_none());
}

#[test]
fn build_skips_a_comment_without_tab() {
    let catalog = Engines::build("# no tab here\na\tb").unwrap();
    assert_eq!(names(&catalog), vec!["a"]);
}

#[test]
fn build_reads_the_empty_text() {
    assert_eq!(Engines::build("").unwrap().len(), 0);
    assert_eq!(Engines::build("\n\n\n").unwrap().len(), 0);
}

#[test]
fn build_needs_no_final_newline() {
    let catalog = Engines::build("a\t1\nb\t2").unwrap();
    assert_eq!(names(&catalog), vec!["a", "b"]);
    assert_eq!(catalog.select("b").unwrap().url_fragment(), "2");
}

#[test]
fn build_takes_carriage_return_and_line_feed_as_one_ending() {
    let catalog = Engines::build("a\t1\r\n\r\nb\t2\r\n").unwrap();
    assert_eq!(names(&catalog), vec!["a", "b"]);
    assert_eq!(catalog.select("a").unwrap().url_fragment(), "1");
}

#[test]
fn build_keeps_a_carriage_return_that_ends_the_text() {
    let catalog = Engines::build("a\t1\r").unwrap();
    assert_eq!(catalog.select("a").unwrap().url_fragment(), "1\r");
}

#[test]
fn build_stops_at_the_first_malformed_line() {
    let err = Engines::build("a\t1\nbroken line\nb\t2\nalso broken\n").unwrap_err();
    assert_eq!(line_of(err), "broken line");
}

#[test]
fn build_reports_a_line_with_an_empty_field() {
    assert_eq!(line_of(Engines::build("a\t1\nb\t\n").unwrap_err()), "b\t");
    assert_eq!(line_of(Engines::build("a\t1\n\tb\n").unwrap_err()), "\tb");
}

#[test]
fn build_lets_the_last_of_two_equal_names_win() {
    let catalog = Engines::build("a\tfirst\nb\tsecond\na\tthird\n").unwrap();
    assert_eq!(catalog.len(), 2);
    assert_eq!(names(&catalog), vec!["b", "a"]);
    assert_eq!(catalog.select("a").unwrap().url_fragment(), "third");
}

#[test]
fn select_matches_the_exact_name() {
    let catalog = Engines::build("ddg\thttps://duckduckgo.com/?q=").unwrap();
    let engine = catalog.select("ddg").unwrap();
    assert_eq!(engine.name(), "ddg");
    assert_eq!(engine.url_fragment(), "https://duckduckgo.com/?q=");
}

#[test]
fn select_tells_upper_from_lower_case() {
    let catalog = Engines::build("ddg\thttps://duckduckgo.com/?q=").unwrap();
    assert!(catalog.select("Ddg").is_none());
}

#[test]
fn select_does_not_match_a_prefix_or_a_longer_name() {
    assert!(Engines::build("amazon\t1\n").unwrap().select("ama").is_none());
    assert!(Engines::build("amazon\t1\n").unwrap().select("amazon2").is_none());
    assert!(Engines::build("amazon\t1\n").unwrap().select("").is_none());
}

#[test]
fn filter_keeps_catalog_order() {
    let catalog = Engines::build("a\t1\nbb\t2\namazon\t3\nbandcamp\t4\ndiscogs\t5\n").unwrap();
    let found: Vec<&str> = catalog.filter("a").iter().map(|e| e.name()).collect();
    assert_eq!(found, vec!["a", "amazon"]);
    let found: Vec<&str> = catalog.filter("b").iter().map(|e| e.name()).collect();
    assert_eq!(found, vec!["bb", "bandcamp"]);
    let found: Vec<&str> = catalog.filter("ba").iter().map(|e| e.name()).collect();
    assert_eq!(found, vec!["bandcamp"]);
}

#[test]
fn filter_with_empty_prefix_gives_every_engine() {
    let catalog = Engines::build("a\t1\nbb\t2\namazon\t3\n").unwrap();
    assert_eq!(names(&catalog), vec!["a", "bb", "amazon"]);
}

#[test]
fn filter_gives_nothing_where_nothing_matches() {
    let catalog = Engines::build("a\t1\nbb\t2\n").unwrap();
    assert!(catalog.filter("zzz").is_empty());
    assert!(catalog.filter("A").is_empty());
    assert!(catalog.filter("bbb").is_empty());
}

#[test]
fn filter_shrinks_as_the_prefix_grows() {
    let catalog = Engines::build("a\t1\nbb\t2\namazon\t3\nbandcamp\t4\namiga\t5\n").unwrap();
    let mut prefix = String::new();
    let mut before: Vec<String> = names(&catalog);
    for ch in "amazon2".chars() {
        prefix.push(ch);
        let now: Vec<String> = catalog.filter(&prefix).iter().map(|e| e.name().to_string()).collect();
        assert!(now.iter().all(|n| before.contains(n)));
        assert!(now.len() <= before.len());
        before = now;
    }
    assert!(before.is_empty());
}

#[test]
fn matching_takes_the_prefix_as_characters() {
    let catalog = Engines::build("amazon\t1\namazon2\t2\n").unwrap();
    let found: Vec<&str> = catalog.matching(&['a', 'm']).iter().map(|e| e.name()).collect();
    assert_eq!(found, vec!["amazon", "amazon2"]);
}

#[test]
fn build_url_appends_to_a_literal_template() {
    let engine = SearchEngine::from_str("ddg\thttps://duckduckgo.com/?q=").unwrap();
    assert_eq!(engine.build_url("rust"), "https://duckduckgo.com/?q=rust");
}

#[test]
fn build_url_fills_the_placeholder() {
    let engine =
        SearchEngine::from_str("err\thttps://doc.rust-lang.org/error_codes/E%s.html").unwrap();
    assert_eq!(engine.build_url("0382"), "https://doc.rust-lang.org/error_codes/E0382.html");
}

#[test]
fn build_url_fills_every_placeholder() {
    let engine = SearchEngine::from_str("x\t%s-%s").unwrap();
    assert_eq!(engine.build_url("Q"), "Q-Q");
}

#[test]
fn build_url_does_not_encode_the_query() {
    let engine = SearchEngine::from_str("ddg\thttps://duckduckgo.com/?q=").unwrap();
    assert_eq!(engine.build_url("a b&c=ü"), "https://duckduckgo.com/?q=a b&c=ü");
}

#[test]
fn build_url_reads_placeholders_from_the_left() {
    let engine = SearchEngine::from_str("x\t%%s%s%").unwrap();
    assert_eq!(engine.build_url("Q"), "%QQ%");
    let engine = SearchEngine::from_str("x\ta%sb%Sc%").unwrap();
    assert_eq!(engine.build_url("12"), "a12b%Sc%");
}

#[test]
fn build_url_does_not_fill_what_the_query_brings() {
    let engine = SearchEngine::from_str("x\t<%s>").unwrap();
    assert_eq!(engine.build_url("%s"), "<%s>");
}

#[test]
fn build_url_takes_an_empty_query() {
    let engine = SearchEngine::from_str("x\thttps://x/?q=").unwrap();
    assert_eq!(engine.build_url(""), "https://x/?q=");
    let engine = SearchEngine::from_str("x\thttps://x/%s/y").unwrap();
    assert_eq!(engine.build_url(""), "https://x//y");
}

#[test]
fn has_valid_url_accepts_an_absolute_url() {
    let engine = SearchEngine::from_str("ddg\thttps://duckduckgo.com/?q=").unwrap();
    assert!(engine.has_valid_url());
}

#[test]
fn has_valid_url_refuses_a_url_without_scheme() {
    let engine = SearchEngine::from_str("ddg\tduckduckgo.com/?q=").unwrap();
    assert!(!engine.has_valid_url());
    assert_eq!(engine.build_url("rust"), "duckduckgo.com/?q=rust");
}

#[test]
fn malformed_line_message_names_what_is_missing() {
    let err = SearchEngine::from_str("ddg").unwrap_err();
    assert_eq!(err.message(), "line has no url: ddg");
    let err = SearchEngine::from_str("ddg\t").unwrap_err();
    assert_eq!(err.message(), "line has no url: ddg\t");
    let err = SearchEngine::from_str("\thttps://x/").unwrap_err();
    assert_eq!(err.message(), "line has no name: \thttps://x/");
    let err = SearchEngine::from_str("").unwrap_err();
    assert_eq!(err.message(), "line has no url: ");
}

#[test]
fn engine_not_found_message_names_the_engine() {
    let err = SearchError::EngineNotFound("Ddg".to_string());
    assert_eq!(err.message(), "engine not found: Ddg");
}
