use search::selector::Key;
use search::term::{fuzzy, Engines};

fn keys_for(text: &str) -> Vec<Key> {
    text.chars().map(Key::Char).collect()
}

#[test]
fn new_holds_the_built_in_names_in_order() {
    let engines = Engines::new();
    assert_eq!(engines.filter(""), vec!["a", "bb", "amazon", "bandcamp", "discogs"]);
}

#[test]
fn names_filter_keeps_the_order_of_the_list() {
    let engines = Engines::new();
    assert_eq!(engines.filter("a"), vec!["a", "amazon"]);
    assert_eq!(engines.filter("b"), vec!["bb", "bandcamp"]);
    assert_eq!(engines.filter("ba"), vec!["bandcamp"]);
    assert_eq!(engines.filter("discogs"), vec!["discogs"]);
}

#[test]
fn names_filter_gives_nothing_where_nothing_matches() {
    let engines = Engines::new();
    assert!(engines.filter("zzz").is_empty());
    assert!(engines.filter("A").is_empty());
    assert!(engines.filter("aa").is_empty());
    assert!(engines.filter("discogs2").is_empty());
}

#[test]
fn names_filter_shrinks_as_the_prefix_grows() {
    let engines = Engines::new();
    let mut prefix = String::new();
    let mut before: Vec<String> = engines.filter("").iter().map(|n| n.to_string()).collect();
    for ch in "bandcamps".chars() {
        prefix.push(ch);
        let now: Vec<String> = engines.filter(&prefix).iter().map(|n| n.to_string()).collect();
        assert!(now.iter().all(|n| before.contains(n)));
        before = now;
    }
    assert!(before.is_empty());
}

#[test]
fn names_lists_all_of_them() {
    assert_eq!(Engines::new().names(), vec!["a", "bb", "amazon", "bandcamp", "discogs"]);
}

#[test]
fn fuzzy_picks_from_the_built_in_names() {
    assert_eq!(fuzzy(&keys_for("b\n")).as_deref(), Some("bb"));
    assert_eq!(fuzzy(&keys_for("a\n")).as_deref(), Some("a"));
    assert_eq!(fuzzy(&keys_for("am\n")).as_deref(), Some("amazon"));
    assert_eq!(fuzzy(&keys_for("ba\n")).as_deref(), Some("bandcamp"));
    assert_eq!(fuzzy(&keys_for("d\n")).as_deref(), Some("discogs"));
}

#[test]
fn fuzzy_on_the_built_in_names_ignores_a_confirm_that_selects_nothing() {
    assert!(fuzzy(&keys_for("\n")).is_none());
    assert!(fuzzy(&keys_for("zzz\n")).is_none());
    let mut keys = keys_for("zzz\n");
    keys.extend([Key::Backspace, Key::Backspace, Key::Backspace]);
    keys.extend(keys_for("d\n"));
    assert_eq!(fuzzy(&keys).as_deref(), Some("discogs"));
}

#[test]
fn fuzzy_on_the_built_in_names_gives_nothing_on_cancel() {
    let mut keys = keys_for("am");
    keys.push(Key::Esc);
    keys.extend(keys_for("\n"));
    assert!(fuzzy(&keys).is_none());
    assert!(fuzzy(&keys_for("bq\n")).is_none());
    assert!(fuzzy(&[]).is_none());
}
