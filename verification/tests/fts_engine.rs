use oxidedb::fts::definition::FtsIndexState;
use oxidedb::fts::engine::{FtsDocument, FtsEngine};
use oxidedb::fts::json::FtsFieldMapping;
use oxidedb::fts::query::FtsQuery;
use oxidedb::fts::scores::ScorePart;
use oxidedb::fts::search::FtsSearchRequest;
use oxidedb::json::Json;

fn doc(key: &str, title: &str, deleted: bool) -> FtsDocument {
    FtsDocument { key: key.to_string(), value: value(title), deleted }
}

fn value(title: &str) -> Json {
    Json::Object(vec![
        ("title".to_string(), Json::Text(title.to_string())),
        ("year".to_string(), Json::Number("1999".to_string())),
    ])
}

fn engine() -> FtsEngine {
    let mut e = FtsEngine::new();
    e.create_index("idx", "b", vec![], None).unwrap();
    let docs = vec![
        doc("d1", "the quick brown fox", false),
        doc("d2", "the lazy dog", false),
        doc("d3", "quick dog fox", false),
        doc("d4", "gone fox", true),
    ];
    assert_eq!(e.build_index("idx", &Ok(docs)), Ok(3));
    e
}

fn request(query: FtsQuery) -> FtsSearchRequest {
    FtsSearchRequest {
        index: "idx".to_string(),
        query,
        size: 10,
        from: 0,
        highlight: false,
        fields: vec![],
        sort: vec![],
    }
}

fn found(e: &FtsEngine, query: FtsQuery) -> Vec<String> {
    let mut keys = e.search(&request(query)).unwrap().map.keys;
    keys.sort();
    keys
}

fn term(t: &str) -> FtsQuery {
    FtsQuery::Term { field: "title".to_string(), term: t.to_string() }
}

fn matching(q: &str, fuzziness: usize, operator: Option<&str>) -> FtsQuery {
    FtsQuery::Match {
        field: "title".to_string(),
        query: q.to_string(),
        fuzziness,
        operator: operator.map(|o| o.to_string()),
    }
}

#[test]
fn indexed_words_are_found() {
    let e = engine();
    assert_eq!(found(&e, term("fox")), vec!["d1", "d3"]);
    assert_eq!(found(&e, term("cat")), Vec::<String>::new());
    assert_eq!(found(&e, matching("Quick DOG", 0, None)), vec!["d1", "d2", "d3"]);
    assert_eq!(found(&e, matching("quick dog", 0, Some("and"))), vec!["d3"]);
    assert_eq!(found(&e, matching("quack", 1, None)), vec!["d1", "d3"]);
}

#[test]
fn phrases_stand_in_order() {
    let e = engine();
    let phrase = |q: &str| FtsQuery::MatchPhrase {
        field: "title".to_string(),
        query: q.to_string(),
    };
    assert_eq!(found(&e, phrase("brown fox")), vec!["d1"]);
    assert_eq!(found(&e, phrase("fox brown")), Vec::<String>::new());
}

#[test]
fn patterns_and_prefixes() {
    let e = engine();
    let field = || "title".to_string();
    assert_eq!(
        found(&e, FtsQuery::Prefix { field: field(), prefix: "LA".to_string() }),
        vec!["d2"]
    );
    assert_eq!(
        found(&e, FtsQuery::Wildcard { field: field(), wildcard: "f?x".to_string() }),
        vec!["d1", "d3"]
    );
    assert_eq!(
        found(&e, FtsQuery::Regexp { field: field(), regexp: "d.g".to_string() }),
        vec!["d2", "d3"]
    );
    assert_eq!(
        found(&e, FtsQuery::Term { field: "_all".to_string(), term: "dog".to_string() }),
        vec!["d2", "d3"]
    );
}

#[test]
fn boolean_queries_combine() {
    let e = engine();
    let q = FtsQuery::Bool {
        must: vec![term("fox")],
        should: vec![term("dog")],
        must_not: vec![term("brown")],
    };
    assert_eq!(found(&e, q), vec!["d3"]);
    let q = FtsQuery::Bool {
        must: vec![],
        should: vec![term("lazy"), term("brown")],
        must_not: vec![],
    };
    assert_eq!(found(&e, q), vec!["d1", "d2"]);
    assert_eq!(found(&e, FtsQuery::MatchAll), vec!["d1", "d2", "d3"]);
    assert_eq!(found(&e, FtsQuery::MatchNone), Vec::<String>::new());
}

#[test]
fn stored_numbers_are_found_by_their_notation() {
    let mut e = FtsEngine::new();
    let fields = vec![FtsFieldMapping { field: "year".to_string(), analyzer: None, store: true }];
    e.create_index("idx", "b", fields, None).unwrap();
    e.build_index("idx", &Ok(vec![doc("d1", "x", false)])).unwrap();
    let q = |inside: &str| FtsQuery::NumericRange {
        field: "year".to_string(),
        inside: vec![inside.to_string()],
    };
    assert_eq!(found(&e, q("1999")), vec!["d1"]);
    assert_eq!(found(&e, q("2000")), Vec::<String>::new());
}

#[test]
fn scores_are_made_of_counts() {
    let e = engine();
    let scores = e.search(&request(term("fox"))).unwrap();
    let parts = scores.map.get("d3").unwrap();
    assert_eq!(parts.len(), 1);
    match parts[0] {
        ScorePart::Term(stat) => {
            assert_eq!((stat.tf, stat.df, stat.total_docs), (1, 2, 3));
            assert_eq!(stat.doc_len, Some(3));
            assert_eq!(stat.average, Some((10, 3)));
        }
        other => panic!("{:?}", other),
    }
}

#[test]
fn indexes_follow_their_bucket() {
    let mut e = engine();
    e.on_document_upsert("b", "d2", &value("a new fox"));
    e.on_document_upsert("other", "d9", &value("a new fox"));
    assert_eq!(found(&e, term("fox")), vec!["d1", "d2", "d3"]);
    assert_eq!(found(&e, term("lazy")), Vec::<String>::new());
    assert_eq!(e.get_index("idx").unwrap().doc_count, 3);
    e.on_document_delete("b", "d1");
    assert_eq!(found(&e, term("fox")), vec!["d2", "d3"]);
    assert_eq!(found(&e, FtsQuery::MatchAll), vec!["d2", "d3"]);
    assert_eq!(e.get_index("idx").unwrap().doc_count, 2);
}

#[test]
fn pages_of_results() {
    let e = engine();
    let mut req = request(matching("quick fox", 0, None));
    req.highlight = true;
    req.fields = vec!["title".to_string(), "none".to_string()];
    let scores = e.search(&req).unwrap();
    let weights: Vec<u64> =
        scores.map.keys.iter().map(|k| if k == "d3" { 20 } else { 10 }).collect();
    let page = e.page(&req, &scores, &weights).unwrap();
    assert_eq!(page.total_hits, 2);
    assert_eq!(page.max_weight, Some(20));
    assert_eq!(page.hits[0].id, "d3");
    assert_eq!(page.hits[1].id, "d1");
    assert_eq!(page.hits[0].fields.get("title"), Some(&"quick dog fox".to_string()));
    assert_eq!(page.hits[0].fields.len(), 1);
    let marked = page.hits[0].fragments.as_ref().unwrap().get("title").unwrap().clone();
    assert_eq!(marked, vec!["<mark>quick</mark> dog <mark>fox</mark>"]);
    req.from = 1;
    req.size = 1;
    let page = e.page(&req, &scores, &weights).unwrap();
    assert_eq!(page.hits.len(), 1);
    assert_eq!(page.hits[0].id, "d1");
    req.from = 5;
    assert!(e.page(&req, &scores, &weights).unwrap().hits.is_empty());
}

fn order(e: &FtsEngine, weights: &[u64], sort: &[&str]) -> Vec<String> {
    let mut req = request(FtsQuery::MatchAll);
    req.sort = sort.iter().map(|s| s.to_string()).collect();
    let scores = e.search(&req).unwrap();
    assert_eq!(scores.map.keys, vec!["d1", "d2", "d3"]);
    let page = e.page(&req, &scores, &weights.to_vec()).unwrap();
    assert_eq!(page.max_weight, weights.iter().max().copied());
    page.hits.into_iter().map(|h| h.id).collect()
}

#[test]
fn results_come_in_the_order_asked_for() {
    let e = engine();
    assert_eq!(order(&e, &[5, 9, 5], &[]), vec!["d2", "d1", "d3"]);
    assert_eq!(order(&e, &[5, 9, 5], &["_score"]), vec!["d2", "d1", "d3"]);
    assert_eq!(order(&e, &[5, 9, 5], &["-_score"]), vec!["d1", "d3", "d2"]);
    // The titles are "the quick brown fox", "the lazy dog" and "quick dog fox".
    assert_eq!(order(&e, &[5, 9, 5], &["title"]), vec!["d3", "d2", "d1"]);
    assert_eq!(order(&e, &[5, 9, 5], &["-title"]), vec!["d1", "d2", "d3"]);
    assert_eq!(order(&e, &[5, 9, 5], &["_score", "title"]), vec!["d2", "d3", "d1"]);
    assert_eq!(order(&e, &[5, 9, 5], &["none"]), vec!["d1", "d2", "d3"]);
}

#[test]
fn errors_say_what_is_the_matter() {
    let mut e = FtsEngine::new();
    assert_eq!(
        e.search(&request(FtsQuery::MatchAll)).err().unwrap(),
        "FTS index 'idx' not found"
    );
    e.create_index("idx", "b", vec![], None).unwrap();
    assert_eq!(
        e.create_index("idx", "b", vec![], None).err().unwrap(),
        "FTS index 'idx' already exists"
    );
    assert_eq!(
        e.search(&request(FtsQuery::MatchAll)).err().unwrap(),
        "FTS index 'idx' is not online (state: Building)"
    );
    assert_eq!(
        e.build_index("idx", &Err("Bucket 'b' not found".to_string())).err().unwrap(),
        "Bucket error: Bucket 'b' not found"
    );
    assert_eq!(
        e.build_index("nope", &Ok(vec![])).err().unwrap(),
        "FTS index 'nope' not found"
    );
    assert!(e.drop_index("idx").is_ok());
    assert_eq!(e.drop_index("idx").err().unwrap(), "FTS index 'idx' not found");
}

#[test]
fn definitions_are_loaded_once() {
    let mut e = engine();
    let def = e.get_index("idx").unwrap();
    assert!(!e.load_definition(def, &Ok(vec![])));
    let mut other = e.get_index("idx").unwrap();
    other.name = "two".to_string();
    assert!(e.load_definition(other, &Err("gone".to_string())));
    assert_eq!(e.get_index("two").unwrap().state, FtsIndexState::Offline);
    let mut third = e.get_index("idx").unwrap();
    third.name = "three".to_string();
    assert!(e.load_definition(third, &Ok(vec![doc("d1", "x y", false)])));
    let built = e.get_index("three").unwrap();
    assert_eq!((built.state, built.doc_count, built.term_count), (FtsIndexState::Online, 1, 2));
    assert_eq!(e.list_indexes().len(), 3);
}
