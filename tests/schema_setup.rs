use falkordb_csv_loader::engine::FalkorDBCSVLoader;
use falkordb_csv_loader::records::Row;
use falkordb_csv_loader::schema::{
    discover_node_labels, edge_type_from_file_name, node_label_from_file_name, sanitize_label,
    split_list,
};

fn row(fields: &[(&str, &str)]) -> Row {
    let mut r = Row::new();
    for (k, v) in fields {
        r.push_field(k.to_string(), v.to_string());
    }
    r
}

fn strings(v: &[&str]) -> Vec<String> {
    v.iter().map(|s| s.to_string()).collect()
}

#[test]
fn file_names_give_labels_and_types() {
    assert_eq!(node_label_from_file_name("nodes_Person.csv"), Some("Person".to_string()));
    assert_eq!(node_label_from_file_name("nodes_Network:Zone.csv"), Some("Network_Zone".to_string()));
    assert_eq!(node_label_from_file_name("edges_KNOWS.csv"), None);
    assert_eq!(node_label_from_file_name("nodes_.csv"), Some(String::new()));
    assert_eq!(node_label_from_file_name("nodes.csv"), None);
    assert_eq!(edge_type_from_file_name("edges_KNOWS.csv"), Some("KNOWS".to_string()));
    assert_eq!(edge_type_from_file_name("edges_KNOWS.txt"), None);
    assert_eq!(sanitize_label("A:B:C"), "A_B_C");
}

#[test]
fn id_index_per_distinct_label() {
    let names = strings(&["nodes_Person.csv", "indexes.csv", "nodes_City.csv", "nodes_Person.csv"]);
    let labels = discover_node_labels(&names);
    assert_eq!(labels, strings(&["Person", "City"]));
    assert_eq!(
        FalkorDBCSVLoader::create_id_indexes_for_all_labels(&labels),
        strings(&["CREATE INDEX ON :Person(id)", "CREATE INDEX ON :City(id)"])
    );
}

#[test]
fn lists_split_on_semicolons() {
    assert_eq!(split_list(" A ; ;B; "), strings(&["A", "B"]));
    assert_eq!(split_list(""), Vec::<String>::new());
}

#[test]
fn index_rows_expand_to_label_property_pairs() {
    let rows = vec![
        row(&[("labels", "Person;City"), ("properties", "name; age"), ("uniqueness", "NONUNIQUE"), ("type", "RANGE")]),
        row(&[("labels", ""), ("properties", "x")]),
        row(&[("labels", "A"), ("properties", "x"), ("type", "lookup")]),
        row(&[("labels", "A"), ("properties", "x"), ("uniqueness", "UNIQUE")]),
        row(&[("labels", "Zone"), ("properties", "code")]),
    ];
    let plan = FalkorDBCSVLoader::create_indexes_from_csv(&rows);
    assert_eq!(
        plan.statements,
        strings(&[
            "CREATE INDEX ON :Person(name)",
            "CREATE INDEX ON :Person(age)",
            "CREATE INDEX ON :City(name)",
            "CREATE INDEX ON :City(age)",
            "CREATE INDEX ON :Zone(code)",
        ])
    );
    assert_eq!(plan.skipped, 3);
}

#[test]
fn constraints_and_their_supporting_indexes() {
    let rows = vec![
        row(&[("labels", "Person;Org"), ("properties", "id;email"), ("type", "UNIQUENESS"), ("entity_type", "node")]),
        row(&[("labels", "City"), ("properties", "code"), ("type", "unique")]),
        row(&[("labels", "R"), ("properties", "k"), ("type", "UNIQUE"), ("entity_type", "RELATIONSHIP")]),
        row(&[("labels", "E;F"), ("properties", "k"), ("type", "EXISTS")]),
        row(&[("labels", "G"), ("properties", "")]),
        row(&[("labels", "H"), ("properties", "k"), ("type", "UNIQUE"), ("entity_type", "")]),
    ];
    assert_eq!(
        FalkorDBCSVLoader::create_supporting_indexes_for_constraints(&rows),
        strings(&[
            "CREATE INDEX FOR (n:Person) ON (n.id, n.email)",
            "CREATE INDEX FOR (n:Org) ON (n.id, n.email)",
            "CREATE INDEX FOR (n:City) ON (n.code)",
            "CREATE INDEX FOR (n:R) ON (n.k)",
            "CREATE INDEX FOR (n:H) ON (n.k)",
        ])
    );
    let plan = FalkorDBCSVLoader::create_constraints_from_csv(&rows);
    assert_eq!(
        plan.statements,
        strings(&[
            "CREATE CONSTRAINT FOR (n:Person) REQUIRE (n.id, n.email) IS UNIQUE",
            "CREATE CONSTRAINT FOR (n:Org) REQUIRE (n.id, n.email) IS UNIQUE",
            "CREATE CONSTRAINT FOR (n:City) REQUIRE n.code IS UNIQUE",
        ])
    );
    assert_eq!(plan.skipped, 5);
}
