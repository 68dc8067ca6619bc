use falkordb_csv_loader::batch::{
    build_edge_bulk, build_edge_fallback, build_node_bulk, build_node_fallback, clean_property_key,
    node_properties,
};
use falkordb_csv_loader::records::Row;

fn row(fields: &[(&str, &str)]) -> Row {
    let mut r = Row::new();
    for (k, v) in fields {
        r.push_field(k.to_string(), v.to_string());
    }
    r
}

#[test]
fn node_bulk_statement_covers_batch() {
    let rows = vec![
        row(&[("id", "1"), ("name", "Alice")]),
        row(&[("id", "2"), ("name", "Bob")]),
        row(&[("id", "3"), ("name", "Carol")]),
    ];
    let b = build_node_bulk("Person", false, &rows, 0, 2);
    assert_eq!(b.query, "UNWIND $batch AS row CREATE (n:Person) SET n.id = row.id, n += row.props");
    assert_eq!(
        b.batch_literal(),
        "[{id: 1, props: {name: 'Alice'}}, {id: 2, props: {name: 'Bob'}}]"
    );
    let m = build_node_bulk("Person", true, &rows, 2, 3);
    assert_eq!(m.query, "UNWIND $batch AS row MERGE (n:Person {id: row.id}) SET n += row.props");
    assert_eq!(m.batch_literal(), "[{id: 3, props: {name: 'Carol'}}]");
}

#[test]
fn empty_fields_never_become_properties() {
    let r = row(&[("id", ""), ("name", ""), ("labels", "X"), ("age", "7")]);
    assert_eq!(node_properties(&r), vec![("age".to_string(), "7".to_string())]);
    let b = build_node_bulk("P", false, &vec![r], 0, 1);
    assert_eq!(b.batch_literal(), "[{id: '', props: {age: 7}}]");
    let r = row(&[("id", ""), ("name", ""), ("labels", "X"), ("age", "7")]);
    assert_eq!(build_node_fallback("P", false, &r), "CREATE (n:P {id: '', age: '7'})");
    let r = row(&[("id", "5"), ("name", "")]);
    assert_eq!(build_node_fallback("P", true, &r), "MERGE (n:P {id: '5'})");
}

#[test]
fn node_fallback_statements() {
    let r = row(&[("id", "1"), ("name", "O'Neil"), ("city", "Oslo")]);
    assert_eq!(
        build_node_fallback("Person", false, &r),
        "CREATE (n:Person {id: '1', name: 'O\\'Neil', city: 'Oslo'})"
    );
    assert_eq!(
        build_node_fallback("Person", true, &r),
        "MERGE (n:Person {id: '1'}) SET n.name = 'O\\'Neil', n.city = 'Oslo'"
    );
}

#[test]
fn text_batch_writes_the_same_both_ways() {
    let r = row(&[("id", "a1"), ("name", "Ann")]);
    let b = build_node_bulk("P", true, &vec![row(&[("id", "a1"), ("name", "Ann")])], 0, 1);
    assert_eq!(b.batch_literal(), "[{id: 'a1', props: {name: 'Ann'}}]");
    assert_eq!(build_node_fallback("P", true, &r), "MERGE (n:P {id: 'a1'}) SET n.name = 'Ann'");
}

#[test]
fn edge_statements_match_by_identifier() {
    let mapping = vec![("person".to_string(), "Person".to_string())];
    let rows = vec![
        row(&[
            ("source", "1"),
            ("target", "2"),
            ("source_label", " person "),
            ("target_label", "Network:Zone"),
            ("type", "KNOWS"),
            ("Date:Date", "2020"),
            ("note", ""),
        ]),
        row(&[("source", ""), ("target", "2")]),
    ];
    let b = build_edge_bulk("KNOWS", false, &mapping, &rows, 0, 2).expect("one edge");
    assert_eq!(
        b.query,
        "UNWIND $batch AS row MATCH (a {id: row.source_id}) MATCH (b {id: row.target_id}) CREATE (a)-[r:KNOWS]->(b) SET r += row.props"
    );
    assert_eq!(
        b.batch_literal(),
        "[{source_id: 1, target_id: 2, source_label: 'Person', target_label: 'Network', props: {Date: 2020}}]"
    );
    let m = build_edge_bulk("KNOWS", true, &mapping, &rows, 0, 1).expect("one edge");
    assert_eq!(
        m.query,
        "UNWIND $batch AS row MERGE (a {id: row.source_id}) MERGE (b {id: row.target_id}) MERGE (a)-[r:KNOWS]->(b) SET r += row.props"
    );
    assert!(build_edge_bulk("KNOWS", true, &mapping, &rows, 1, 2).is_none());
    assert_eq!(
        build_edge_fallback("KNOWS", false, &rows[0]).unwrap(),
        "MATCH (a {id: '1'}), (b {id: '2'}) CREATE (a)-[:KNOWS {Date: '2020'}]->(b)"
    );
    assert_eq!(
        build_edge_fallback("KNOWS", true, &rows[0]).unwrap(),
        "MERGE (a {id: '1'}) MERGE (b {id: '2'}) MERGE (a)-[r:KNOWS]->(b) SET r.Date = '2020'"
    );
    assert!(build_edge_fallback("KNOWS", true, &rows[1]).is_none());
    let bare = row(&[("source", "x"), ("target", "y")]);
    assert_eq!(
        build_edge_fallback("R", false, &bare).unwrap(),
        "MATCH (a {id: 'x'}), (b {id: 'y'}) CREATE (a)-[:R]->(b)"
    );
}

#[test]
fn property_keys_drop_a_doubled_prefix() {
    assert_eq!(clean_property_key(&"Date:Date".to_string()), "Date");
    assert_eq!(clean_property_key(&"Date:Time".to_string()), "Date:Time");
    assert_eq!(clean_property_key(&"A:A:A".to_string()), "A:A:A");
    assert_eq!(clean_property_key(&"plain".to_string()), "plain");
}
