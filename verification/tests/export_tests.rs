use fileinfo::export::to_delimited_text;
use fileinfo::rows::TableRow;

fn row(dp: &str, np: &str, dv: &str, nv: &str) -> TableRow {
    TableRow {
        display_predicate: dp.to_owned(),
        native_predicate: np.to_owned(),
        display_value: dv.to_owned(),
        native_value: nv.to_owned(),
    }
}

#[test]
fn export_plain_rows_exact_text() {
    let rows = vec![row("Identifier", "Identifier", "urn:x", "urn:x")];
    let text = to_delimited_text(&rows);
    assert_eq!(
        text,
        "Display Predicate,Native Predicate,Display Value,Native Value\n\
         Identifier,Identifier,urn:x,urn:x\n"
    );
}

#[test]
fn export_of_no_rows_is_header_only() {
    let text = to_delimited_text(&Vec::new());
    assert_eq!(
        text,
        "Display Predicate,Native Predicate,Display Value,Native Value\n"
    );
}

#[test]
fn export_quotes_delimiter_quote_and_line_break() {
    let rows = vec![row(
        "Label",
        "http://example.org/p",
        "one, two",
        "line one\nsays \"hi\"",
    )];
    let text = to_delimited_text(&rows);
    assert_eq!(
        text,
        "Display Predicate,Native Predicate,Display Value,Native Value\n\
         Label,http://example.org/p,\"one, two\",\"line one\nsays \"\"hi\"\"\"\n"
    );
}

#[test]
fn export_matches_standard_csv_writer() {
    let rows = vec![
        row("Identifier", "Identifier", "urn:x", "urn:x"),
        row("A", "http://example.org/a", "v, w", "v\nw"),
        row("B", "http://example.org/b", "say \"x\"", "say \"x\""),
    ];
    let text = to_delimited_text(&rows);

    let mut wtr = csv::WriterBuilder::new().has_headers(true).from_writer(vec![]);
    wtr.write_record([
        "Display Predicate",
        "Native Predicate",
        "Display Value",
        "Native Value",
    ])
    .unwrap();
    for r in &rows {
        wtr.write_record([
            &r.display_predicate,
            &r.native_predicate,
            &r.display_value,
            &r.native_value,
        ])
        .unwrap();
    }
    let expected = String::from_utf8(wtr.into_inner().unwrap()).unwrap();
    assert_eq!(text, expected);
}

#[test]
fn export_round_trips_through_standard_csv_reader() {
    let rows = vec![
        row("Identifier", "Identifier", "urn:x", "urn:x"),
        row("A", "http://example.org/a", "plain", "with, delimiter"),
        row("B", "http://example.org/b", "multi\nline", "quote \" inside"),
        row("C", "http://example.org/c", "", "carriage\rreturn"),
    ];
    let text = to_delimited_text(&rows);

    let mut rdr = csv::ReaderBuilder::new()
        .has_headers(false)
        .from_reader(text.as_bytes());
    let mut records = Vec::new();
    for result in rdr.records() {
        let record = result.unwrap();
        let fields: Vec<String> = record.iter().map(|f| f.to_owned()).collect();
        records.push(fields);
    }

    assert_eq!(records.len(), 1 + rows.len());
    assert_eq!(
        records[0],
        vec![
            "Display Predicate",
            "Native Predicate",
            "Display Value",
            "Native Value",
        ]
    );
    for (i, r) in rows.iter().enumerate() {
        assert_eq!(records[i + 1][0], r.display_predicate);
        assert_eq!(records[i + 1][1], r.native_predicate);
        assert_eq!(records[i + 1][2], r.display_value);
        assert_eq!(records[i + 1][3], r.native_value);
    }
}
