use synapse::cli::{count_items, should_show_line, shows_memory, shows_store};
use synapse::parser::parse;
use synapse::sdk::SynapseClientError;

#[test]
fn items_are_counted_through_namespaces() {
    let prog = parse(
        r#"
            config { storage: sqlite("x") }
            memory A { x: int }
            namespace n {
                memory B { y: int }
                on e() { }
                query Q(): A[] { from A }
            }
            update A { on_access { x = 1 } }
            policy P { every 1h { } }
            @extern fn f(): int
        "#,
    )
    .unwrap();
    let (mut m, mut h, mut q, mut u, mut p, mut e) = (0, 0, 0, 0, 0, 0);
    count_items(&prog.items, &mut m, &mut h, &mut q, &mut u, &mut p, &mut e);
    assert_eq!((m, h, q, u, p, e), (2, 1, 1, 1, 1, 1));
}

#[test]
fn log_lines_filtered_by_level() {
    assert!(should_show_line("2024 INFO started", "info"));
    assert!(!should_show_line("2024 DEBUG detail", "info"));
    assert!(should_show_line("2024 ERROR boom", "warn"));
    assert!(should_show_line("no level here", "error"));
    assert!(!should_show_line("a trace line", "debug"));
    assert!(should_show_line("a warn line", "nonsense"));
    assert!(!should_show_line("a debug line", "nonsense"));
    assert!(!should_show_line("a debug line", "info"));
    assert!(should_show_line("x warn y", "trace"));
}

#[test]
fn client_error_text() {
    assert_eq!(
        SynapseClientError::Query { query_name: "GetAll".to_string(), message: "bad".to_string() }
            .to_string(),
        "Query error: GetAll: bad"
    );
    assert_eq!(SynapseClientError::Connection("down".to_string()).to_string(), "Connection error: down");
}

#[test]
fn inspection_store_filter() {
    assert!(shows_store("qdrant", None));
    assert!(shows_store("qdrant", Some("Vector")));
    assert!(shows_store("neo4j", Some("GRAPH")));
    assert!(shows_store("sqlite", Some("SQLite")));
    assert!(!shows_store("sqlite", Some("vector")));
    assert!(!shows_store("other", Some("other")));
}

#[test]
fn inspection_memory_filter() {
    assert!(shows_memory("Fact", None));
    assert!(shows_memory("Fact", Some("fACT")));
    assert!(!shows_memory("Fact", Some("Facts")));
    assert!(!shows_memory("Fact", Some("Fakt")));
    assert!(shows_memory("Café", Some("CAFé")));
    assert!(!shows_memory("Café", Some("CAFÉ")));
}
