use falkordb_csv_loader::engine::{FalkorDBCSVLoader, LoadError};
use falkordb_csv_loader::labels::{collect_edge_labels, reconcile_labels};
use falkordb_csv_loader::records::Row;

fn strings(v: &[&str]) -> Vec<String> {
    v.iter().map(|s| s.to_string()).collect()
}

fn sorted(mut v: Vec<(String, String)>) -> Vec<(String, String)> {
    v.sort();
    v.dedup();
    v
}

#[test]
fn exact_match_dominates_case_insensitive() {
    let r = reconcile_labels(&strings(&["Person", "person"]), &strings(&["Person"]));
    match r {
        Ok(m) => assert_eq!(m, vec![("Person".to_string(), "Person".to_string())]),
        Err(e) => panic!("unexpected failure {:?}", e),
    }
}

#[test]
fn composite_label_accepted_without_entry() {
    let r = reconcile_labels(&strings(&["Network", "Zone"]), &strings(&["Network:Zone"]));
    match r {
        Ok(m) => assert!(m.is_empty()),
        Err(e) => panic!("unexpected failure {:?}", e),
    }
    let r = reconcile_labels(&strings(&["Network", "Zone"]), &strings(&["network:ZONE"]));
    assert!(matches!(r, Ok(ref m) if m.is_empty()));
}

#[test]
fn missing_label_fails_fast() {
    let r = reconcile_labels(&strings(&["Person"]), &strings(&["Company"]));
    assert_eq!(r, Err(strings(&["Company"])));
    match FalkorDBCSVLoader::validate_label_consistency(&strings(&["Person"]), &strings(&["Company"])) {
        Err(LoadError::LabelValidation(missing)) => assert_eq!(missing, strings(&["Company"])),
        _ => panic!("expected a label validation failure"),
    }
}

#[test]
fn every_missing_label_is_named() {
    let r = reconcile_labels(
        &strings(&["Person"]),
        &strings(&["Company", "person", "City", "Person:Company"]),
    );
    assert_eq!(r, Err(strings(&["Company", "City", "Person:Company"])));
}

#[test]
fn case_insensitive_match_maps_to_node_label() {
    let r = reconcile_labels(&strings(&["Person", "City"]), &strings(&["PERSON", "City"]));
    assert_eq!(
        r.map(sorted),
        Ok(vec![
            ("City".to_string(), "City".to_string()),
            ("PERSON".to_string(), "Person".to_string()),
        ])
    );
}

#[test]
fn ambiguous_case_match_is_missing() {
    let r = reconcile_labels(&strings(&["Person", "PERSON"]), &strings(&["person"]));
    assert_eq!(r, Err(strings(&["person"])));
}

#[test]
fn order_of_edge_labels_does_not_matter() {
    let nodes = strings(&["Person", "Zone", "Network"]);
    let a = reconcile_labels(&nodes, &strings(&["person", "Network:Zone", "Zone"]));
    let b = reconcile_labels(&nodes, &strings(&["Zone", "Network:Zone", "person", "Zone"]));
    assert_eq!(a.map(sorted), b.map(sorted));
}

#[test]
fn edge_labels_come_from_first_rows() {
    let mut r1 = Row::new();
    r1.push_field("source".to_string(), "1".to_string());
    r1.push_field("source_label".to_string(), "Person".to_string());
    r1.push_field("target_label".to_string(), "City".to_string());
    let mut r2 = Row::new();
    r2.push_field("source_label".to_string(), "City".to_string());
    r2.push_field("target_label".to_string(), "Zone".to_string());
    let mut r3 = Row::new();
    r3.push_field("source_label".to_string(), "Lone".to_string());
    assert_eq!(collect_edge_labels(&vec![r1, r2, r3]), strings(&["Person", "City", "Zone"]));
}
