use fileinfo::aggregate::backlink_rows;
use fileinfo::aggregate::describe;
use fileinfo::aggregate::describe_rows;
use fileinfo::aggregate::header_title;
use fileinfo::aggregate::StoreError;
use fileinfo::aggregate::Triple;
use fileinfo::classify::Category;
use fileinfo::options::Options;
use fileinfo::rows::backlink_navigation_target;
use fileinfo::rows::navigation_target;

fn triple(predicate: &str, value: &str, datatype: &str) -> Triple {
    Triple {
        predicate: predicate.to_owned(),
        value: value.to_owned(),
        datatype: datatype.to_owned(),
    }
}

const RDF_TYPE: &str = "http://www.w3.org/1999/02/22-rdf-syntax-ns#type";
const FILE_OBJECT: &str = "http://tracker.api.gnome.org/ontology/v3/nfo#FileDataObject";

#[test]
fn no_triples_yields_identifier_row_only() {
    let (is_file_like, rows, categories) = describe_rows("urn:x", &Vec::new(), &Vec::new());
    assert!(!is_file_like);
    assert_eq!(rows.len(), 1);
    assert_eq!(categories, vec![Category::Literal]);
    assert_eq!(rows[0].display_predicate, "Identifier");
    assert_eq!(rows[0].native_predicate, "Identifier");
    assert_eq!(rows[0].display_value, "urn:x");
    assert_eq!(rows[0].native_value, "urn:x");
}

#[test]
fn blocks_follow_first_occurrence_order() {
    // Predicate b is seen first, then a, then b again, then c: the blocks come
    // out as b (both values in arrival order), a, c.
    let triples = vec![
        triple("http://example.org/b", "b1", "t"),
        triple("http://example.org/a", "a1", "t"),
        triple("http://example.org/b", "b2", "t"),
        triple("http://example.org/c", "c1", "t"),
    ];
    let fmts = vec![None, None, None, None];
    let (_, rows, _) = describe_rows("urn:x", &triples, &fmts);
    let preds: Vec<&str> = rows.iter().skip(1).map(|r| r.native_predicate.as_str()).collect();
    assert_eq!(
        preds,
        vec![
            "http://example.org/b",
            "http://example.org/b",
            "http://example.org/a",
            "http://example.org/c",
        ]
    );
    let values: Vec<&str> = rows.iter().skip(1).map(|r| r.native_value.as_str()).collect();
    assert_eq!(values, vec!["b1", "b2", "a1", "c1"]);
    assert_eq!(rows[1].display_predicate, "B");
    assert_eq!(rows[3].display_predicate, "A");
}

#[test]
fn file_like_found_anywhere_in_stream() {
    let plain = triple("http://example.org/a", "v", "t");
    let marker = triple(RDF_TYPE, FILE_OBJECT, "");

    let triples = vec![plain.clone(), marker.clone(), plain.clone()];
    let fmts = vec![None, None, None];
    let (is_file_like, _, _) = describe_rows("urn:x", &triples, &fmts);
    assert!(is_file_like);

    let triples = vec![plain.clone(), plain.clone()];
    let fmts = vec![None, None];
    let (is_file_like, _, _) = describe_rows("urn:x", &triples, &fmts);
    assert!(!is_file_like);

    // The right value under a different predicate, and the type predicate
    // with a different value, do not count.
    let triples = vec![
        triple("http://example.org/a", FILE_OBJECT, ""),
        triple(RDF_TYPE, "http://example.org/Other", ""),
    ];
    let fmts = vec![None, None];
    let (is_file_like, _, _) = describe_rows("urn:x", &triples, &fmts);
    assert!(!is_file_like);
}

#[test]
fn untyped_value_displayed_verbatim_and_date_formatted() {
    let triples = vec![
        triple("http://example.org/ref", "urn:other", ""),
        triple(
            "http://example.org/modified",
            "2024-06-04T12:34:56Z",
            "http://www.w3.org/2001/XMLSchema#dateType",
        ),
    ];
    let fmts = vec![None, Some(String::from("2024-06-04 12:34:56"))];
    let (_, rows, _) = describe_rows("urn:x", &triples, &fmts);
    assert_eq!(rows[1].display_value, "urn:other");
    assert_eq!(rows[1].native_value, "urn:other");
    assert_eq!(rows[2].display_value, "2024-06-04 12:34:56");
    assert_eq!(rows[2].native_value, "2024-06-04T12:34:56Z");
}

#[test]
fn describe_failure_yields_no_rows() {
    let out = describe(
        "urn:x",
        Err(StoreError::Connection(String::from("service unreachable"))),
    );
    assert!(!out.is_file_like);
    assert!(out.rows.is_empty());
    assert!(matches!(out.error, Some(StoreError::Connection(_))));

    let out = describe("urn:x", Err(StoreError::Query(String::from("bad query"))));
    assert!(matches!(out.error, Some(StoreError::Query(_))));
}

#[test]
fn describe_success_carries_no_error() {
    let triples = vec![triple("http://example.org/a", "v", "t")];
    let fmts = vec![None];
    let out = describe("urn:x", Ok((triples, fmts)));
    assert!(out.error.is_none());
    assert_eq!(out.rows.len(), 2);
}

#[test]
fn header_title_follows_file_flag() {
    assert_eq!(header_title(true), "File Information");
    assert_eq!(header_title(false), "Node Information");
}

#[test]
fn backlink_rows_keep_arrival_order_without_grouping() {
    let pairs = vec![
        (String::from("urn:s1"), String::from("http://example.org/refersTo")),
        (String::from("not a uri"), String::from("http://example.org/refersTo")),
        (String::from("urn:s1"), String::from("http://example.org/partOf")),
    ];
    let rows = backlink_rows(&pairs);
    assert_eq!(rows.len(), 3);
    assert_eq!(rows[0].subject, "urn:s1");
    assert_eq!(rows[0].predicate_label, "Refers To");
    assert!(rows[0].subject_is_link);
    assert!(!rows[1].subject_is_link);
    assert_eq!(rows[2].predicate_label, "Part Of");
    assert_eq!(rows[2].predicate, "http://example.org/partOf");
}

#[test]
fn navigation_uses_native_values() {
    let triples = vec![triple(
        "http://example.org/modified",
        "2024-06-04T12:34:56Z",
        "http://www.w3.org/2001/XMLSchema#dateType",
    )];
    let fmts = vec![Some(String::from("2024-06-04 12:34:56"))];
    let (_, rows, _) = describe_rows("urn:x", &triples, &fmts);
    // Re-querying must use the exact store output, not the display form.
    assert_eq!(navigation_target(&rows[1]), "2024-06-04T12:34:56Z");

    let pairs = vec![(String::from("urn:s1"), String::from("http://example.org/p"))];
    let backlinks = backlink_rows(&pairs);
    assert_eq!(backlink_navigation_target(&backlinks[0]), "urn:s1");
}

#[test]
fn options_carry_the_request() {
    let opts = Options { uri: true, debug: false, item: String::from("urn:x") };
    assert!(opts.uri);
    assert!(!opts.debug);
    assert_eq!(opts.item, "urn:x");
}
