use search::engines::SearchEngine;
use search::template::fill;

fn expected(template: &str, query: &str) -> String {
    if template.contains("%s") {
        template.replace("%s", query)
    } else {
        template.to_string() + query
    }
}

#[test]
fn fill_appends_where_no_placeholder_is() {
    assert_eq!(fill("https://duckduckgo.com/?q=", "rust"), "https://duckduckgo.com/?q=rust");
    assert_eq!(fill("", "rust"), "rust");
    assert_eq!(fill("%", "s"), "%s");
    assert_eq!(fill("s%", "x"), "s%x");
    assert_eq!(fill("%S", "x"), "%Sx");
}

#[test]
fn fill_replaces_each_placeholder() {
    assert_eq!(fill("%s", "Q"), "Q");
    assert_eq!(fill("%s-%s", "Q"), "Q-Q");
    assert_eq!(fill("%s%s%s", "ab"), "ababab");
    assert_eq!(fill("a%sb", ""), "ab");
    assert_eq!(fill("%%s", "Q"), "%Q");
    assert_eq!(fill("%ss", "Q"), "Qs");
    assert_eq!(fill("ü%sü", "ö"), "üöü");
}

#[test]
fn fill_agrees_with_std_replace() {
    let pieces = ["", "%", "s", "%s", "a", "S", "ü"];
    for a in pieces {
        for b in pieces {
            for c in pieces {
                for d in pieces {
                    let template = format!("{a}{b}{c}{d}");
                    for query in ["", "Q", "%s", "%", "s", "two words"] {
                        assert_eq!(
                            fill(&template, query),
                            expected(&template, query),
                            "{:?} {:?}",
                            template,
                            query
                        );
                    }
                }
            }
        }
    }
}

#[test]
fn from_str_agrees_with_std_split() {
    let pieces = ["", "\t", "a", "b c", "#", "ü"];
    for a in pieces {
        for b in pieces {
            for c in pieces {
                for d in pieces {
                    let line = format!("{a}{b}{c}{d}");
                    let mut parts = line.split('\t');
                    let name = parts.next().unwrap_or("");
                    let url = parts.next().unwrap_or("");
                    match SearchEngine::from_str(&line) {
                        Ok(engine) => {
                            assert!(!name.is_empty() && !url.is_empty(), "{:?}", line);
                            assert_eq!(engine.name(), name, "{:?}", line);
                            assert_eq!(engine.url_fragment(), url, "{:?}", line);
                        }
                        Err(_) => assert!(name.is_empty() || url.is_empty(), "{:?}", line),
                    }
                }
            }
        }
    }
}
