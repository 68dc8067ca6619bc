use falkordb_csv_loader::engine::{
    classify_error, classify_folded, connection_url, counts_progress, health_next,
    health_statement, next_phase, progress_due, Action, ErrorClass, FalkorDBCSVLoader,
    HealthNext, HealthStep, LoadError, Outcome, RunPhase, SchemaTally, Statement,
};
use falkordb_csv_loader::labels::collect_edge_labels;
use falkordb_csv_loader::records::{parse_rows, Row};
use falkordb_csv_loader::schema::{edge_type_from_file_name, node_label_from_file_name};

fn row(fields: &[(&str, &str)]) -> Row {
    let mut r = Row::new();
    for (k, v) in fields {
        r.push_field(k.to_string(), v.to_string());
    }
    r
}

#[test]
fn errors_are_classified_by_text() {
    assert_eq!(classify_error("IO error: Connection refused"), ErrorClass::Connectivity);
    assert_eq!(classify_error("Broken Pipe"), ErrorClass::Connectivity);
    assert_eq!(classify_error("connection RESET by peer"), ErrorClass::Connectivity);
    assert_eq!(classify_error("Index Already Exists"), ErrorClass::AlreadyExists);
    assert_eq!(classify_error("an equivalent index"), ErrorClass::AlreadyExists);
    assert_eq!(classify_error("Attribute already indexed"), ErrorClass::AlreadyExists);
    assert_eq!(classify_error("syntax error"), ErrorClass::Generic);
    assert_eq!(classify_folded("Already Exists"), ErrorClass::Generic);
}

#[test]
fn abort_stops_every_later_statement() {
    let mut loader = FalkorDBCSVLoader::new("g".to_string(), false, 0);
    assert!(loader.admit_statement().is_ok());
    let rows = vec![row(&[("id", "1")]), row(&[("id", "2")]), row(&[("id", "3")])];
    let mut run = loader.load_nodes_batch("P".to_string(), rows, 1);
    let queued = loader.load_nodes_batch("P".to_string(), vec![row(&[("id", "9")])], 1);
    assert!(matches!(run.start(&loader), Action::Execute(Statement::Bulk(_))));
    let a = run.on_outcome(&mut loader, Outcome::Failed("connection reset".to_string()));
    assert!(matches!(a, Action::Stop(LoadError::Connectivity(_))));
    assert!(loader.is_aborted());
    assert!(matches!(loader.admit_statement(), Err(LoadError::Aborted)));
    let mut queued = queued;
    assert!(matches!(queued.start(&loader), Action::Stop(LoadError::Aborted)));
    assert_eq!(loader.statement_failed("syntax error"), ErrorClass::Generic);
    assert!(loader.is_aborted());
}

#[test]
fn failed_bulk_falls_back_row_by_row() {
    let mut loader = FalkorDBCSVLoader::new("g".to_string(), true, 0);
    let rows = vec![
        row(&[("id", "1"), ("name", "A")]),
        row(&[("id", "2"), ("name", "B")]),
        row(&[("id", "3")]),
    ];
    let mut run = loader.load_nodes_batch("P".to_string(), rows, 2);
    assert!(matches!(run.start(&loader), Action::Execute(Statement::Bulk(ref b)) if b.batch.len() == 2));
    let a = run.on_outcome(&mut loader, Outcome::Failed("type mismatch".to_string()));
    match a {
        Action::Execute(Statement::Single(t)) => assert_eq!(t, "MERGE (n:P {id: '1'}) SET n.name = 'A'"),
        _ => panic!("expected the first row's statement"),
    }
    let a = run.on_outcome(&mut loader, Outcome::Failed("bad row".to_string()));
    match a {
        Action::Execute(Statement::Single(t)) => assert_eq!(t, "MERGE (n:P {id: '2'}) SET n.name = 'B'"),
        _ => panic!("expected the second row's statement"),
    }
    let a = run.on_outcome(&mut loader, Outcome::Succeeded);
    assert!(matches!(a, Action::Execute(Statement::Bulk(ref b)) if b.batch.len() == 1));
    let a = run.on_outcome(&mut loader, Outcome::Succeeded);
    assert!(matches!(a, Action::Finished(2)));
    assert_eq!(run.failed, 1);
    assert!(!loader.is_aborted());
}

#[test]
fn edge_fallback_skips_rows_without_endpoints() {
    let mut loader = FalkorDBCSVLoader::new("g".to_string(), false, 0);
    let rows = vec![
        row(&[("source", ""), ("target", "1")]),
        row(&[("source", "1"), ("target", "2")]),
    ];
    let mut run = loader.load_edges_batch("R".to_string(), rows, 5);
    assert!(matches!(run.start(&loader), Action::Execute(Statement::Bulk(ref b)) if b.batch.len() == 1));
    match run.on_outcome(&mut loader, Outcome::Failed("oops".to_string())) {
        Action::Execute(Statement::Single(t)) => {
            assert_eq!(t, "MATCH (a {id: '1'}), (b {id: '2'}) CREATE (a)-[:R]->(b)")
        }
        _ => panic!("expected the edge's statement"),
    }
    assert!(matches!(run.on_outcome(&mut loader, Outcome::Succeeded), Action::Finished(1)));
}

#[test]
fn end_to_end_person_knows() {
    let mut loader = FalkorDBCSVLoader::new("social".to_string(), false, 1000);
    let node_rows = parse_rows(b"id,name\n1,Alice\n2,Bob\n").expect("valid csv");
    let label = node_label_from_file_name("nodes_Person.csv").unwrap();
    let edge_rows =
        parse_rows(b"source,target,source_label,target_label\n1,2,Person,Person\n").expect("valid csv");
    let rel = edge_type_from_file_name("edges_KNOWS.csv").unwrap();

    let edge_labels = collect_edge_labels(&vec![edge_rows[0].clone()]);
    let mapping = FalkorDBCSVLoader::validate_label_consistency(&vec![label.clone()], &edge_labels);
    loader.label_mapping = match mapping {
        Ok(m) => m,
        Err(_) => panic!("labels should reconcile"),
    };

    let mut nodes = loader.load_nodes_batch(label, node_rows, 5000);
    let mut statements = 0;
    match nodes.start(&loader) {
        Action::Execute(Statement::Bulk(b)) => {
            statements += 1;
            assert_eq!(b.batch.len(), 2);
            assert_eq!(
                b.batch_literal(),
                "[{id: 1, props: {name: 'Alice'}}, {id: 2, props: {name: 'Bob'}}]"
            );
        }
        _ => panic!("expected one bulk statement"),
    }
    let node_count = match nodes.on_outcome(&mut loader, Outcome::Succeeded) {
        Action::Finished(n) => n,
        _ => panic!("node file should be done"),
    };
    assert_eq!(statements, 1);

    let mut edges = loader.load_edges_batch(rel, edge_rows, 5000);
    match edges.start(&loader) {
        Action::Execute(Statement::Bulk(b)) => {
            assert!(b.query.contains("MATCH (a {id: row.source_id}) MATCH (b {id: row.target_id})"));
            assert_eq!(
                b.batch_literal(),
                "[{source_id: 1, target_id: 2, source_label: 'Person', target_label: 'Person', props: {}}]"
            );
        }
        _ => panic!("expected one edge statement"),
    }
    let edge_count = match edges.on_outcome(&mut loader, Outcome::Succeeded) {
        Action::Finished(n) => n,
        _ => panic!("edge file should be done"),
    };
    assert_eq!((node_count, edge_count), (2, 1));
}

#[test]
fn health_check_sequence() {
    assert_eq!(health_statement(HealthStep::RoundTrip), "RETURN 1 as test");
    assert!(matches!(health_next(HealthStep::RoundTrip, false), HealthNext::Unreachable));
    assert!(matches!(health_next(HealthStep::RoundTrip, true), HealthNext::Run(HealthStep::TestWrite)));
    assert!(matches!(health_next(HealthStep::TestWrite, false), HealthNext::Done(false)));
    assert!(matches!(health_next(HealthStep::TestWrite, true), HealthNext::Run(HealthStep::Cleanup)));
    assert!(matches!(health_next(HealthStep::Cleanup, false), HealthNext::Done(true)));
}

#[test]
fn run_phases_advance_or_abort() {
    let mut loader = FalkorDBCSVLoader::new("g".to_string(), false, 0);
    assert_eq!(next_phase(RunPhase::Init, true, &loader), RunPhase::Validate);
    assert_eq!(next_phase(RunPhase::Validate, true, &loader), RunPhase::HealthCheck);
    assert_eq!(next_phase(RunPhase::Validate, false, &loader), RunPhase::Aborted);
    assert_eq!(next_phase(RunPhase::LoadNodes, true, &loader), RunPhase::LoadEdges);
    assert_eq!(next_phase(RunPhase::LoadEdges, true, &loader), RunPhase::Done);
    assert_eq!(next_phase(RunPhase::SchemaSetup, false, &loader), RunPhase::Aborted);
    loader.statement_failed("broken pipe");
    assert_eq!(next_phase(RunPhase::HealthCheck, true, &loader), RunPhase::Aborted);
}

#[test]
fn connection_addresses() {
    assert_eq!(connection_url("localhost", 6379, &None, &None), "falkor://localhost:6379");
    assert_eq!(
        connection_url("db", 7000, &Some("u".to_string()), &None),
        "falkor://u@db:7000"
    );
    assert_eq!(
        connection_url("db", 0, &Some("u".to_string()), &Some("p".to_string())),
        "falkor://u:p@db:0"
    );
    assert_eq!(connection_url("h", 1, &None, &Some("p".to_string())), "falkor://h:1");
}

#[test]
fn schema_tally_and_progress() {
    let mut t = SchemaTally::new();
    t.record(None);
    t.record(Some(ErrorClass::AlreadyExists));
    t.record(Some(ErrorClass::Generic));
    t.record(None);
    assert_eq!((t.created, t.existing, t.failed), (2, 1, 1));
    assert!(!counts_progress(&FalkorDBCSVLoader::new("g".to_string(), false, 0)));
    assert!(counts_progress(&FalkorDBCSVLoader::new("g".to_string(), false, 10)));
    assert!(progress_due(1000, 2000, 500, 9000));
    assert!(!progress_due(1000, 1700, 500, 9000));
    assert!(progress_due(1000, 1700, 500, 1700));
    assert!(!progress_due(0, 1000, 500, 1000));
}

#[test]
fn stats_and_sample_queries() {
    let loader = FalkorDBCSVLoader::new("g".to_string(), false, 0);
    assert_eq!(loader.verify_node_attributes("Person", 3), "MATCH (n:Person) RETURN n LIMIT 3");
    let (nodes, rels) = loader.get_graph_stats();
    assert_eq!(nodes, "MATCH (n) RETURN labels(n) as labels, count(n) as count");
    assert_eq!(rels, "MATCH ()-[r]->() RETURN type(r) as type, count(r) as count");
}

#[test]
fn csv_rows_keyed_by_header() {
    let rows = parse_rows(b"id,name,age\n7,\"Smith, J\",\n8,Lee,40\n").expect("valid csv");
    assert_eq!(rows.len(), 2);
    assert_eq!(rows[0].get("name"), Some(&"Smith, J".to_string()));
    assert_eq!(rows[0].get("age"), Some(&String::new()));
    assert_eq!(rows[1].get("missing"), None);
    assert_eq!(rows[1].get_or_empty("age"), "40");
    assert!(parse_rows(b"a,b\n1,2,3\n").is_none());
}

#[test]
fn empty_extract_finishes_at_once() {
    let loader = FalkorDBCSVLoader::new("g".to_string(), false, 0);
    let mut nodes = loader.load_nodes_batch("P".to_string(), Vec::new(), 10);
    assert!(matches!(nodes.start(&loader), Action::Finished(0)));
    let mut edges = loader.load_edges_batch("R".to_string(), vec![row(&[("source", "1")])], 10);
    assert!(matches!(edges.start(&loader), Action::Finished(0)));
}

#[test]
fn file_outcomes_sum_or_abort() {
    let mut loader = FalkorDBCSVLoader::new("g".to_string(), false, 0);
    assert!(loader.begin_file().is_ok());
    assert!(matches!(loader.file_finished(3, Ok(4)), Ok(7)));
    assert!(!loader.is_aborted());
    let r = loader.file_finished(7, Err(LoadError::Unreadable("bad".to_string())));
    assert!(matches!(r, Err(LoadError::Unreadable(_))));
    assert!(loader.is_aborted());
    assert!(matches!(loader.begin_file(), Err(LoadError::Aborted)));
}
