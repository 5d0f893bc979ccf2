use oxidedb::fts::analyzer::{tokenize, trim_word, AnalyzerConfig};
use oxidedb::fts::highlight::highlight_text;
use oxidedb::fts::json::{discover_string_fields, get_nested_value, join_texts};
use oxidedb::fts::matching::{levenshtein_distance, simple_regex_match, wildcard_match};
use oxidedb::json::Json;

fn words(text: &str, config: &AnalyzerConfig) -> Vec<String> {
    tokenize(text, config).into_iter().map(|t| t.text).collect()
}

fn config(tokenizer: &str) -> AnalyzerConfig {
    let mut c = AnalyzerConfig::default();
    c.tokenizer = tokenizer.to_string();
    c
}

fn text(s: &str) -> Json {
    Json::Text(s.to_string())
}

#[test]
fn tokenizers_cut_texts_into_words() {
    assert_eq!(words("Hello, World-Wide web!", &config("standard")), vec!["hello", "world-wide", "web"]);
    assert_eq!(words("Hello, World", &config("whitespace")), vec!["hello,", "world"]);
    assert_eq!(words("abc123def", &config("simple")), vec!["abc", "def"]);
    assert_eq!(words("Hello World", &config("keyword")), vec!["hello world"]);
    let mut stop = config("standard");
    stop.stop_words = true;
    assert_eq!(words("the cat and the hat", &stop), vec!["cat", "hat"]);
    let mut long = config("standard");
    long.min_token_length = 4;
    assert_eq!(words("a quick cat", &long), vec!["quick"]);
    assert_eq!(trim_word("--x--"), "x");
}

#[test]
fn tokens_know_their_places() {
    let tokens = tokenize("é b", &config("whitespace"));
    assert_eq!(tokens[1].position, 1);
    assert_eq!(tokens[1].start_offset, 3);
    assert_eq!(tokens[1].end_offset, 4);
}

#[test]
fn edit_distances() {
    assert_eq!(levenshtein_distance("kitten", "sitting"), 3);
    assert_eq!(levenshtein_distance("", "abc"), 3);
    assert_eq!(levenshtein_distance("abc", "abc"), 0);
    assert_eq!(levenshtein_distance("é", "e"), 1);
}

#[test]
fn patterns_match() {
    assert!(wildcard_match("da*b?se", "database"));
    assert!(!wildcard_match("da*b?se", "databas"));
    assert!(wildcard_match("*", ""));
    assert!(!simple_regex_match("d.t*", "database"));
    assert!(simple_regex_match("d.t.*", "database"));
    assert!(simple_regex_match("ab*", "a"));
    assert!(simple_regex_match("ab*c", "abbbc"));
    assert!(!simple_regex_match("ab*c", "adc"));
    assert!(simple_regex_match("*b", "ab"));
    assert!(simple_regex_match("*", "anything"));
    assert!(!simple_regex_match("*b", "ba"));
    assert!(simple_regex_match("what?", "what?"));
    assert!(!simple_regex_match("what?", "whats"));
    assert!(!simple_regex_match("d.t", "data"));
}

#[test]
fn fields_are_found_by_themselves() {
    let value = Json::Object(vec![
        ("age".to_string(), Json::Number("3".to_string())),
        ("name".to_string(), text("Bo")),
        (
            "user".to_string(),
            Json::Object(vec![("bio".to_string(), text("x")), ("n".to_string(), Json::Null)]),
        ),
        ("tags".to_string(), Json::Array(vec![Json::Null, text("t")])),
        ("nums".to_string(), Json::Array(vec![Json::Number("1".to_string())])),
    ]);
    let found: Vec<String> =
        discover_string_fields(&value, "").into_iter().map(|m| m.field).collect();
    assert_eq!(found, vec!["name", "user.bio", "tags"]);
    match get_nested_value(&value, "user.bio") {
        Some(Json::Text(t)) => assert_eq!(t, "x"),
        other => panic!("{:?}", other),
    }
    assert!(get_nested_value(&value, "user.missing").is_none());
    assert!(get_nested_value(&value, "name.x").is_none());
    assert_eq!(join_texts(&vec!["a".to_string(), "b".to_string()], ", "), "a, b");
}

#[test]
fn fragments_mark_what_was_searched_for() {
    let terms = vec!["fox".to_string()];
    assert_eq!(
        highlight_text("The quick brown Fox, jumps", &terms),
        vec!["The quick brown <mark>Fox,</mark> jumps"]
    );
    let long = "a b c d e f g fox h i j k l m n o fox";
    assert_eq!(
        highlight_text(long, &terms),
        vec!["...c d e f g <mark>fox</mark> h i j k l...", "...k l m n o <mark>fox</mark>"]
    );
    assert!(highlight_text("nothing here", &terms).is_empty());
    let many = "fox ".repeat(40);
    assert_eq!(highlight_text(&many, &terms).len(), 3);
}
