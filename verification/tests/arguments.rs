use search::engines::Engines;
use search::{get_input, resolve, usage, Answer, ArgsError, ArgsStep, SearchArgs, SearchError};

fn words(list: &[&str]) -> Vec<String> {
    list.iter().map(|w| w.to_string()).collect()
}

fn done(step: ArgsStep) -> SearchArgs {
    match step {
        ArgsStep::Done(args) => args,
        other => panic!("not done: {:?}", other),
    }
}

#[test]
fn parse_takes_engine_and_query_from_the_command_line() {
    let args = done(SearchArgs::parse(
        &words(&["search", "ddg", "rust"]),
        &Answer::Unasked,
        &Answer::Unasked,
    ));
    assert_eq!(args.engine_name, "ddg");
    assert_eq!(args.query, "rust");
}

#[test]
fn parse_does_not_read_past_the_query() {
    let args = done(SearchArgs::parse(
        &words(&["search", "ddg", "rust", "lang"]),
        &Answer::Given("x".to_string()),
        &Answer::Declined,
    ));
    assert_eq!(args.engine_name, "ddg");
    assert_eq!(args.query, "rust");
}

#[test]
fn parse_asks_for_the_engine_first() {
    let step = SearchArgs::parse(&words(&["search"]), &Answer::Unasked, &Answer::Unasked);
    assert!(matches!(step, ArgsStep::PickEngine));
    let step = SearchArgs::parse(&words(&[]), &Answer::Unasked, &Answer::Unasked);
    assert!(matches!(step, ArgsStep::PickEngine));
    let step =
        SearchArgs::parse(&words(&["search"]), &Answer::Unasked, &Answer::Given("q".to_string()));
    assert!(matches!(step, ArgsStep::PickEngine));
}

#[test]
fn parse_asks_for_the_query_once_the_engine_is_known() {
    let step = SearchArgs::parse(&words(&["search", "ddg"]), &Answer::Unasked, &Answer::Unasked);
    assert!(matches!(step, ArgsStep::AskQuery));
    let step = SearchArgs::parse(
        &words(&["search"]),
        &Answer::Given("ddg".to_string()),
        &Answer::Unasked,
    );
    assert!(matches!(step, ArgsStep::AskQuery));
}

#[test]
fn parse_uses_the_answers() {
    let args = done(SearchArgs::parse(
        &words(&["search"]),
        &Answer::Given("wiki".to_string()),
        &Answer::Given("verus".to_string()),
    ));
    assert_eq!(args.engine_name, "wiki");
    assert_eq!(args.query, "verus");
    let args = done(SearchArgs::parse(
        &words(&["search", "ddg"]),
        &Answer::Declined,
        &Answer::Given("verus".to_string()),
    ));
    assert_eq!(args.engine_name, "ddg");
    assert_eq!(args.query, "verus");
}

#[test]
fn parse_fails_without_engine() {
    let step = SearchArgs::parse(&words(&["search"]), &Answer::Declined, &Answer::Unasked);
    assert!(matches!(step, ArgsStep::Failed(ArgsError::NoEngine)));
    let step = SearchArgs::parse(
        &words(&["search"]),
        &Answer::Declined,
        &Answer::Given("q".to_string()),
    );
    assert!(matches!(step, ArgsStep::Failed(ArgsError::NoEngine)));
}

#[test]
fn parse_fails_without_query() {
    let step = SearchArgs::parse(&words(&["search", "ddg"]), &Answer::Unasked, &Answer::Declined);
    assert!(matches!(step, ArgsStep::Failed(ArgsError::NoQuery)));
}

#[test]
fn a_cancelled_selection_builds_no_url() {
    let catalog = Engines::build("ddg\thttps://duckduckgo.com/?q=").unwrap();
    let picked = Answer::from_option(catalog.fuzzy(&[search::selector::Key::Esc]));
    assert!(matches!(picked, Answer::Declined));
    let step = SearchArgs::parse(&words(&["search"]), &picked, &Answer::Unasked);
    assert!(matches!(step, ArgsStep::Failed(ArgsError::NoEngine)));
}

#[test]
fn answer_from_option() {
    assert!(matches!(Answer::from_option(None), Answer::Declined));
    match Answer::from_option(Some("x".to_string())) {
        Answer::Given(text) => assert_eq!(text, "x"),
        other => panic!("not given: {:?}", other),
    }
}

#[test]
fn args_error_messages() {
    assert_eq!(ArgsError::NoEngine.message(), "No valid engine specified");
    assert_eq!(ArgsError::NoQuery.message(), "No valid query specified");
}

#[test]
fn get_input_trims_the_line() {
    assert_eq!(get_input("rust lang\n").as_deref(), Some("rust lang"));
    assert_eq!(get_input("  \t rust  lang \r\n").as_deref(), Some("rust  lang"));
    assert_eq!(get_input("x").as_deref(), Some("x"));
    assert_eq!(get_input("\u{3000}ü\u{2003}").as_deref(), Some("ü"));
}

#[test]
fn get_input_gives_nothing_for_a_blank_line() {
    assert!(get_input("").is_none());
    assert!(get_input("\n").is_none());
    assert!(get_input(" \t\r\n").is_none());
    assert!(get_input("\u{a0}\u{2028}").is_none());
}

#[test]
fn get_input_keeps_what_is_no_white_space() {
    assert_eq!(get_input("\u{200b}").as_deref(), Some("\u{200b}"));
    assert_eq!(get_input("\u{1c}a\u{1f}").as_deref(), Some("\u{1c}a\u{1f}"));
}

#[test]
fn usage_puts_the_error_first() {
    assert_eq!(
        usage("No valid engine specified"),
        "No valid engine specified\n\nUsage:\n    search <engine> <query>\n"
    );
    assert_eq!(usage(""), "\n\nUsage:\n    search <engine> <query>\n");
}

#[test]
fn resolve_finds_the_engine_and_builds_the_url() {
    let catalog = Engines::build(
        "ddg\thttps://duckduckgo.com/?q=\nerr\thttps://doc.rust-lang.org/error_codes/E%s.html\n",
    )
    .unwrap();
    let args = SearchArgs { engine_name: "err".to_string(), query: "0382".to_string() };
    let (engine, url) = resolve(catalog, &args).unwrap();
    assert_eq!(engine.name(), "err");
    assert_eq!(url, "https://doc.rust-lang.org/error_codes/E0382.html");
}

#[test]
fn resolve_reports_the_name_that_was_not_found() {
    let catalog = Engines::build("ddg\thttps://duckduckgo.com/?q=").unwrap();
    let args = SearchArgs { engine_name: "Ddg".to_string(), query: "rust".to_string() };
    match resolve(catalog, &args) {
        Err(SearchError::EngineNotFound(name)) => assert_eq!(name, "Ddg"),
        other => panic!("not the error: {:?}", other.map(|found| found.1)),
    }
}
