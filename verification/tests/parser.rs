use synapse::ast::{BinOp, ConfigValue, Expr, Item, Stmt};
use synapse::errors::SynapseError;
use synapse::parser::parse;
use synapse::types::Type;

#[test]
fn parse_empty_config() {
    let result = parse("config { }");
    assert!(result.is_ok(), "error: {:?}", result.err());
    let prog = result.unwrap();
    assert_eq!(prog.items.len(), 1);
    assert!(matches!(&prog.items[0], Item::Config(_)));
}

#[test]
fn parse_config_with_entries() {
    let result = parse(
        r#"
            config {
                storage: sqlite("./test.db")
                vector: qdrant("localhost:6333")
                graph: none
            }
        "#,
    );
    assert!(result.is_ok(), "error: {:?}", result.err());
    let prog = result.unwrap();
    if let Item::Config(cfg) = &prog.items[0] {
        assert_eq!(cfg.entries.len(), 3);
        assert_eq!(cfg.entries[0].key, "storage");
        assert_eq!(cfg.entries[2].key, "graph");
        assert!(matches!(&cfg.entries[2].value, ConfigValue::Disabled));
    } else {
        panic!("expected Config");
    }
}

#[test]
fn parse_simple_memory() {
    let result = parse(
        r#"
            memory Note {
                content: string
                created_at: timestamp
            }
        "#,
    );
    assert!(result.is_ok(), "error: {:?}", result.err());
    let prog = result.unwrap();
    if let Item::Memory(mem) = &prog.items[0] {
        assert_eq!(mem.name, "Note");
        assert_eq!(mem.fields.len(), 2);
        assert_eq!(mem.fields[0].name, "content");
        assert_eq!(mem.fields[0].ty, Type::String);
    } else {
        panic!("expected Memory");
    }
}

#[test]
fn parse_memory_with_optional_and_array() {
    let result = parse(
        r#"
            memory Fact {
                content: string
                source: string?
                tags: string[]
                confidence: float[0.0,1.0]
            }
        "#,
    );
    assert!(result.is_ok(), "error: {:?}", result.err());
    let prog = result.unwrap();
    if let Item::Memory(mem) = &prog.items[0] {
        assert_eq!(mem.fields[1].ty, Type::Optional(Box::new(Type::String)));
        assert_eq!(mem.fields[2].ty, Type::Array(Box::new(Type::String)));
        assert!(matches!(&mem.fields[3].ty, Type::BoundedFloat { .. }));
    } else {
        panic!("expected Memory");
    }
}

#[test]
fn parse_handler() {
    let result = parse(
        r#"
            on save(content: string) {
                store(Note {
                    content: content,
                    created_at: now()
                })
            }
        "#,
    );
    assert!(result.is_ok(), "error: {:?}", result.err());
}

#[test]
fn parse_query() {
    let result = parse(
        r#"
            query GetAll(): Note[] {
                from Note
                order by created_at desc
                limit 10
            }
        "#,
    );
    assert!(result.is_ok(), "error: {:?}", result.err());
}

#[test]
fn parse_update() {
    let result = parse(
        r#"
            update Fact {
                on_access {
                    accessed_at = now()
                }
                every 24h {
                    confidence = confidence * 0.95
                    if confidence < 0.1 { delete() }
                }
            }
        "#,
    );
    assert!(result.is_ok(), "error: {:?}", result.err());
}

#[test]
fn parse_comments() {
    let result = parse(
        r#"
            # This is a comment
            memory Note {
                # field comment
                content: string
            }
        "#,
    );
    assert!(result.is_ok(), "error: {:?}", result.err());
}

#[test]
fn parse_extern_fn() {
    let result = parse(
        r#"
            @extern
            fn search(query: string, limit: int): ArchivalEntry[]
        "#,
    );
    assert!(result.is_ok(), "error: {:?}", result.err());
    let prog = result.unwrap();
    assert!(matches!(&prog.items[0], Item::ExternFn(_)));
}

#[test]
fn parse_namespace() {
    let result = parse(
        r#"
            namespace test_agent {
                memory Note {
                    content: string
                }
            }
        "#,
    );
    assert!(result.is_ok(), "error: {:?}", result.err());
    let prog = result.unwrap();
    if let Item::Namespace(ns) = &prog.items[0] {
        assert_eq!(ns.name, "test_agent");
        assert_eq!(ns.items.len(), 1);
    } else {
        panic!("expected Namespace");
    }
}

#[test]
fn parse_pipe_chain() {
    let result = parse(
        r#"
            on process(content: string) {
                content
                    |> extract()
                    |> filter(f => f.confidence > 0.7)
                    |> store()
            }
        "#,
    );
    assert!(result.is_ok(), "error: {:?}", result.err());
}

#[test]
fn parse_on_conflict() {
    let result = parse(
        r#"
            update Fact {
                on_conflict(old, new) {
                    if new.confidence > old.confidence {
                        supersede(old, new)
                    }
                }
            }
        "#,
    );
    assert!(result.is_ok(), "error: {:?}", result.err());
}

#[test]
fn parse_policy() {
    let result = parse(
        r#"
            policy Refresh {
                every 1h {
                    from ConnectorState
                    where last_sync < now() - 1h
                }
            }
        "#,
    );
    assert!(result.is_ok(), "error: {:?}", result.err());
}

#[test]
fn parse_error_names_first_unparsed_token() {
    match parse("memory Note { content: string } }") {
        Err(SynapseError::Parse(m)) => assert_eq!(m, "unexpected token at index 7"),
        other => panic!("expected a parse error, got {:?}", other),
    }
}

#[test]
fn parse_error_on_missing_brace() {
    match parse("memory Note { content: string") {
        Err(SynapseError::Parse(m)) => assert_eq!(m, "unexpected token at index 0"),
        other => panic!("expected a parse error, got {:?}", other),
    }
}

#[test]
fn parse_empty_source() {
    let prog = parse("   # nothing here\n").unwrap();
    assert_eq!(prog.items.len(), 0);
}

#[test]
fn parse_precedence_and_defaults() {
    let prog = parse(
        r#"
            memory M { x: int = 1 + 2 * 3  y: float[0, 2.50] }
            on e() { let a = not b and c or d }
        "#,
    )
    .unwrap();
    if let Item::Memory(mem) = &prog.items[0] {
        match &mem.fields[0].default {
            Some(Expr::Binary { op: BinOp::Add, right, .. }) => {
                assert!(matches!(**right, Expr::Binary { op: BinOp::Mul, .. }))
            }
            other => panic!("unexpected default {:?}", other),
        }
        assert_eq!(
            mem.fields[1].ty,
            Type::BoundedFloat { min: "0".to_string(), max: "2.50".to_string() }
        );
    } else {
        panic!("expected Memory");
    }
    if let Item::Handler(h) = &prog.items[1] {
        match &h.body[0] {
            Stmt::Let { name, value: Expr::Binary { op: BinOp::Or, .. } } => assert_eq!(name, "a"),
            other => panic!("unexpected statement {:?}", other),
        }
    } else {
        panic!("expected Handler");
    }
}
