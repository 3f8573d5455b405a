use synapse::ast::{
    ChannelDef, ChannelEventHandler, ConfigBlock, ConfigEntry, ConfigValue, Duration,
    DurationUnit, Item, NamespaceDef, Program,
};
use synapse::channels::{ChannelEvent, ChannelEventType};
use synapse::config::runtime_config_for;
use synapse::definitions::{collect_definitions, collect_periodic_rules};
use synapse::dispatch::{
    collect_channel_defs, dispatch_actions, event_payload, handler_bindings, DispatchAction,
    PayloadValue,
};
use synapse::filter_plan::{keeps_regex, pattern_kept, query_request, where_filter, Pattern};
use synapse::parser::parse;
use synapse::storage::routing::{
    backend_settings, candidate_ids, chosen_backend, has_id, result_source, within_candidates,
    BackendSettings, ResultSource,
};
use synapse::storage::backends::{
    graph_store, trim_trailing_slashes, vector_store, GraphBackendKind, GraphStore, StorageBackend,
    VectorBackendKind, VectorStore,
};
use synapse::storage::arangodb::{for_aql, graph_match_aql};
use synapse::storage::neo4j::{
    graph_match_cypher, match_cypher, merge_node_cypher, relation_type, triple_cypher, CypherValue,
};
use synapse::storage::sqlite::{create_table_sql, index_sqls, insert_sql, select_sql};
use synapse::storage::surrealdb::{
    graph_match_surql, select_surql, surreal_text, triple_surql, update_surql,
};
use synapse::storage::ConditionOp;

fn handler(event: &str, target: Option<&str>) -> ChannelEventHandler {
    ChannelEventHandler {
        event: event.to_string(),
        target: target.map(|t| t.to_string()),
        params: vec![],
        body: vec![],
    }
}

fn channel(name: &str, events: Vec<ChannelEventHandler>) -> ChannelDef {
    ChannelDef {
        name: name.to_string(),
        source: "slack".to_string(),
        config: vec![],
        poll_interval: None,
        events,
    }
}

fn strings(v: &[&str]) -> Vec<String> {
    v.iter().map(|s| s.to_string()).collect()
}

fn sorted(mut v: Vec<String>) -> Vec<String> {
    v.sort();
    v.dedup();
    v
}

#[test]
fn channels_are_collected_from_namespaces_in_order() {
    let items = vec![
        Item::Channel(channel("a", vec![])),
        Item::Namespace(NamespaceDef {
            name: "ns".to_string(),
            items: vec![
                Item::Channel(channel("b", vec![])),
                Item::Namespace(NamespaceDef {
                    name: "inner".to_string(),
                    items: vec![Item::Channel(channel("c", vec![]))],
                }),
            ],
        }),
        Item::Config(ConfigBlock { entries: vec![] }),
        Item::Channel(channel("d", vec![])),
    ];
    let names: Vec<String> = collect_channel_defs(&items).into_iter().map(|c| c.name).collect();
    assert_eq!(names, strings(&["a", "b", "c", "d"]));
    assert!(collect_channel_defs(&[]).is_empty());
}

#[test]
fn events_go_to_the_handlers_that_match() {
    let defs = vec![
        channel(
            "team",
            vec![
                handler("message", None),
                handler("edit", Some("update")),
                handler("message", Some("audit")),
                handler("message", Some("ingest")),
            ],
        ),
        channel("other", vec![handler("message", Some("x"))]),
        channel("team", vec![handler("reaction", None), handler("message", Some("update"))]),
    ];
    let ev = ChannelEventType::Message;
    assert_eq!(
        dispatch_actions(&defs, "team", &ev, true),
        vec![
            DispatchAction::Emit("ingest".to_string()),
            DispatchAction::Emit("audit".to_string()),
            DispatchAction::Emit("ingest".to_string()),
            DispatchAction::Emit("ingest".to_string()),
        ]
    );
    assert_eq!(
        dispatch_actions(&defs, "team", &ev, false),
        vec![
            DispatchAction::RunBody { channel: 0, handler: 0 },
            DispatchAction::Emit("audit".to_string()),
            DispatchAction::RunBody { channel: 0, handler: 3 },
            DispatchAction::Emit("ingest".to_string()),
        ]
    );
    assert_eq!(
        dispatch_actions(&defs, "team", &ChannelEventType::Edit, false),
        vec![DispatchAction::Emit("ingest".to_string())]
    );
    assert!(dispatch_actions(&defs, "nobody", &ev, true).is_empty());
    let custom = vec![channel("c", vec![handler("pinned", Some("pins"))])];
    assert_eq!(
        dispatch_actions(&custom, "c", &ChannelEventType::Custom("pinned".to_string()), true),
        vec![DispatchAction::Emit("pins".to_string())]
    );
}

#[test]
fn payload_carries_the_event_fields() {
    let e = ChannelEvent {
        event_type: ChannelEventType::Message,
        source: "slack".to_string(),
        channel_name: "team".to_string(),
        content: "hello".to_string(),
        author: Some("ann".to_string()),
        message_id: None,
        metadata: vec![("thread".to_string(), "\"t1\"".to_string())],
        timestamp: "2024-01-02T03:04:05+00:00".to_string(),
    };
    assert_eq!(
        event_payload(&e),
        vec![
            ("content".to_string(), PayloadValue::Text("hello".to_string())),
            ("author".to_string(), PayloadValue::Text("ann".to_string())),
            ("source".to_string(), PayloadValue::Text("slack".to_string())),
            (
                "timestamp".to_string(),
                PayloadValue::Text("2024-01-02T03:04:05+00:00".to_string())
            ),
            ("thread".to_string(), PayloadValue::Json("\"t1\"".to_string())),
        ]
    );
}

#[test]
fn program_configuration() {
    let mut ch = channel("feed", vec![]);
    ch.config = vec![ConfigEntry {
        key: "token".to_string(),
        value: ConfigValue::FnCall { name: "env".to_string(), arg: "TOKEN".to_string() },
    }];
    ch.poll_interval = Some(Duration { value: 2, unit: DurationUnit::Minute });
    let program = Program {
        items: vec![
            Item::Namespace(NamespaceDef { name: "n".to_string(), items: vec![Item::Channel(ch)] }),
            Item::Config(ConfigBlock {
                entries: vec![ConfigEntry {
                    key: "storage".to_string(),
                    value: ConfigValue::FnCall {
                        name: "sqlite".to_string(),
                        arg: "a.db".to_string(),
                    },
                }],
            }),
            Item::Config(ConfigBlock {
                entries: vec![ConfigEntry {
                    key: "storage".to_string(),
                    value: ConfigValue::FnCall {
                        name: "sqlite".to_string(),
                        arg: "b.db".to_string(),
                    },
                }],
            }),
        ],
    };
    let env = vec![("TOKEN".to_string(), "s3cret".to_string())];
    let cfg = runtime_config_for(&program, Some(9000), &env);
    assert_eq!(cfg.port, 9000);
    assert_eq!(cfg.storage.as_ref().unwrap().url, "a.db");
    assert_eq!(cfg.channels.len(), 1);
    assert_eq!(cfg.channels[0].0, "feed");
    assert_eq!(cfg.channels[0].1.poll_interval_secs, 120);
    assert_eq!(cfg.channels[0].1.config.get("token"), Some("s3cret"));

    let bare = runtime_config_for(&Program { items: vec![] }, None, &vec![]);
    assert_eq!(bare.port, 8080);
    assert_eq!(bare.host, "localhost");
    assert!(bare.storage.is_none() && bare.channels.is_empty());
}

#[test]
fn backend_settings_defer_limits_and_virtual_orders() {
    let aliases = vec![("relevance".to_string(), "semantic".to_string())];
    let by_name = Some(("name".to_string(), true));
    assert_eq!(
        backend_settings(&by_name, Some(5), false, false, false, &aliases),
        BackendSettings { order_by: by_name.clone(), limit: Some(5), deferred_limit: None }
    );
    assert_eq!(
        backend_settings(&by_name, Some(5), true, false, false, &aliases),
        BackendSettings { order_by: by_name.clone(), limit: None, deferred_limit: Some(5) }
    );
    assert_eq!(
        backend_settings(&Some(("_score".to_string(), false)), None, false, true, false, &aliases),
        BackendSettings { order_by: None, limit: None, deferred_limit: None }
    );
    assert_eq!(
        backend_settings(&Some(("relevance".to_string(), true)), Some(3), false, false, true, &aliases),
        BackendSettings { order_by: None, limit: None, deferred_limit: Some(3) }
    );
}

#[test]
fn candidates_join_graph_and_semantic_ids() {
    let g = Some(strings(&["a", "b", "c"]));
    let c = Some(strings(&["b", "c", "d"]));
    let s = Some(strings(&["e"]));
    assert_eq!(sorted(candidate_ids(g.clone(), c.clone(), None).unwrap()), strings(&["b", "c"]));
    assert_eq!(
        sorted(candidate_ids(g.clone(), c.clone(), s.clone()).unwrap()),
        strings(&["b", "c", "e"])
    );
    assert_eq!(sorted(candidate_ids(None, c.clone(), None).unwrap()), strings(&["b", "c", "d"]));
    assert_eq!(sorted(candidate_ids(None, None, s.clone()).unwrap()), strings(&["e"]));
    assert_eq!(candidate_ids(None, None, Some(vec![])), None);
    assert_eq!(sorted(candidate_ids(g.clone(), None, Some(vec![])).unwrap()), strings(&["a", "b", "c"]));
    assert_eq!(candidate_ids(None, None, None), None);
    assert!(has_id(&strings(&["x", "y"]), "y"));
    assert!(!has_id(&strings(&["x", "y"]), "z"));
}

#[test]
fn result_sources() {
    assert_eq!(result_source(true, true, false), ResultSource::StoredCandidates);
    assert_eq!(result_source(true, false, true), ResultSource::RelationalCandidates);
    assert_eq!(result_source(false, true, true), ResultSource::AllStored);
    assert_eq!(result_source(false, true, false), ResultSource::Relational);
    assert_eq!(result_source(false, false, true), ResultSource::Relational);
}

fn query_body_of(src: &str) -> synapse::ast::QueryBody {
    let program = parse(src).unwrap();
    match program.items.into_iter().next().unwrap() {
        Item::Query(q) => q.body,
        _ => panic!("not a query"),
    }
}

#[test]
fn where_clause_filters() {
    let body = query_body_of(
        r#"query Q(x: string): Fact[] {
            from Fact, Note
            where subject == x and score >= 2 and (kind == "a" or kind != "b" or 1 < 2)
                and graph_match(x, hops: 3) and regex(subject, "^a") and regex(kind, "")
                and sql("SELECT 1") and semantic_match(x, threshold: 0.8)
                and cypher("MATCH (n {name: $x}) RETURN n", who: x)
            order by created desc
            limit 10
        }"#,
    );
    let req = query_request(&body);
    assert_eq!(req.sources, strings(&["Fact", "Note"]));
    assert_eq!(req.order_by, Some(("created".to_string(), false)));
    assert!(req.limit.is_some());
    let f = &req.filter;
    let conds: Vec<(String, ConditionOp)> =
        f.conditions.iter().map(|c| (c.field.clone(), c.op)).collect();
    assert_eq!(conds, vec![("subject".to_string(), ConditionOp::Eq), ("score".to_string(), ConditionOp::Ge)]);
    let ors: Vec<(String, ConditionOp)> =
        f.or_conditions.iter().map(|c| (c.field.clone(), c.op)).collect();
    assert_eq!(ors, vec![("kind".to_string(), ConditionOp::Eq), ("kind".to_string(), ConditionOp::Ne)]);
    assert_eq!(f.graph_match.as_ref().unwrap().hops, 3);
    assert!(f.graph_match.as_ref().unwrap().input.is_some());
    assert_eq!(f.regex.len(), 1);
    assert_eq!(f.regex[0].field, "subject");
    assert!(matches!(&f.regex[0].pattern, Pattern::Literal(p) if p == "^a"));
    assert_eq!(f.raw_sql.as_deref(), Some("SELECT 1"));
    assert!(matches!(&f.semantic.as_ref().unwrap().threshold, synapse::ast::Expr::Float(t) if t == "0.8"));
    let cy = f.cypher.as_ref().unwrap();
    assert_eq!(cy.query, "MATCH (n {name: $x}) RETURN n");
    assert_eq!(cy.named.len(), 1);
    assert_eq!(cy.named[0].0, "who");
    assert_eq!(cy.scope_names, strings(&["MATCH", "x"]));
}

#[test]
fn where_clause_defaults_and_ignored_parts() {
    let body = query_body_of(
        r#"query Q(): Fact[] {
            from Fact
            where graph_match(name) and 1 + 2 and cypher(q) and x.y == 3 and semantic_match(q)
        }"#,
    );
    let req = query_request(&body);
    assert_eq!(req.order_by, None);
    assert!(req.limit.is_none());
    let f = &req.filter;
    assert_eq!(f.graph_match.as_ref().unwrap().hops, 2);
    assert!(f.cypher.is_none());
    assert!(f.conditions.is_empty());
    assert!(matches!(&f.semantic.as_ref().unwrap().threshold, synapse::ast::Expr::Float(t) if t == "0.7"));
    let plain = where_filter(&synapse::ast::Expr::Int(1));
    assert!(plain.conditions.is_empty() && plain.graph_match.is_none() && plain.regex.is_empty());
}

#[test]
fn sqlite_select_text() {
    let conds = vec![
        ("subject".to_string(), ConditionOp::Eq, false),
        ("note".to_string(), ConditionOp::Eq, true),
    ];
    let ors = vec![("kind".to_string(), ConditionOp::Ne, false), ("x".to_string(), ConditionOp::Lt, true)];
    assert_eq!(
        select_sql("Fact", &conds, &ors, &Some(("created".to_string(), false)), Some(10)),
        (
            "SELECT * FROM Fact WHERE subject = ? AND note IS NULL AND (kind != ? OR x = ?) ORDER BY created DESC LIMIT 10"
                .to_string(),
            vec![true, false, true, true]
        )
    );
    assert_eq!(select_sql("T", &vec![], &vec![], &None, None), ("SELECT * FROM T".to_string(), vec![]));
    assert_eq!(
        select_sql("T", &vec![], &vec![("a".to_string(), ConditionOp::Gt, false)], &Some(("a".to_string(), true)), None),
        ("SELECT * FROM T WHERE (a > ?) ORDER BY a ASC".to_string(), vec![true])
    );
}

#[test]
fn cypher_match_text() {
    let conds = vec![("name".to_string(), ConditionOp::Eq, CypherValue::Text("Ann".to_string()))];
    let ors = vec![
        ("age".to_string(), ConditionOp::Ge, CypherValue::Text("3".to_string())),
        ("age".to_string(), ConditionOp::Eq, CypherValue::Null),
    ];
    assert_eq!(
        match_cypher("Person", &conds, &ors, &Some(("name".to_string(), true)), Some(5)),
        "MATCH (n:Person) WHERE n.name = 'Ann' AND (n.age >= '3' OR n.age IS NULL) RETURN n ORDER BY n.name ASC LIMIT 5"
    );
    assert_eq!(match_cypher("Person", &vec![], &vec![], &None, None), "MATCH (n:Person) RETURN n");
}

#[test]
fn aql_and_surrealql_text() {
    let conds = vec![
        ("a".to_string(), ConditionOp::Eq, "1".to_string()),
        ("b".to_string(), ConditionOp::Ne, "x".to_string()),
    ];
    assert_eq!(
        for_aql("Fact", &conds, &Some(("a".to_string(), false)), Some(3)),
        "FOR doc IN Fact FILTER doc.a == '1' AND doc.b != 'x' SORT doc.a DESC LIMIT 3 RETURN doc"
    );
    assert_eq!(for_aql("Fact", &vec![], &None, None), "FOR doc IN Fact RETURN doc");
    let sconds = vec![
        ("a".to_string(), ConditionOp::Le, "1".to_string()),
        ("b".to_string(), ConditionOp::Eq, surreal_text("x")),
    ];
    assert_eq!(
        select_surql("Fact", &sconds, &None, Some(2)),
        "SELECT * FROM Fact WHERE a <= 1 AND b = 'x' LIMIT 2;"
    );
    assert_eq!(select_surql("Fact", &vec![], &Some(("z".to_string(), true)), None), "SELECT * FROM Fact ORDER BY z ASC;");
    assert_eq!(surreal_text("it's"), "'it\\'s'");
    assert_eq!(surreal_text(""), "''");
}

#[test]
fn sqlite_table_and_insert_text() {
    let fields = vec![
        ("subject".to_string(), "string".to_string()),
        ("score".to_string(), "float".to_string()),
        ("n".to_string(), "int".to_string()),
    ];
    assert_eq!(
        create_table_sql("Fact", &fields),
        "CREATE TABLE IF NOT EXISTS Fact (\n                _id TEXT PRIMARY KEY,\n                subject TEXT, score REAL, n INTEGER\n            )"
    );
    assert_eq!(
        index_sqls("Fact", &strings(&["subject", "n"])),
        vec![
            "CREATE INDEX IF NOT EXISTS idx_Fact_subject ON Fact (subject)".to_string(),
            "CREATE INDEX IF NOT EXISTS idx_Fact_n ON Fact (n)".to_string(),
        ]
    );
    assert_eq!(insert_sql("Fact", &strings(&["a", "b"])), "INSERT OR REPLACE INTO Fact (_id, a, b) VALUES (?, ?, ?)");
    assert_eq!(insert_sql("T", &vec![]), "INSERT OR REPLACE INTO T (_id) VALUES (?)");
}

#[test]
fn graph_statements() {
    assert_eq!(relation_type("works at"), "WORKS_AT");
    assert_eq!(relation_type("is-a part"), "IS_A_PART");
    let some = |s: &str| Some(s.to_string());
    assert_eq!(
        triple_cypher("Fact", &some("ann"), &some("works at"), &some("acme")),
        Some(
            "MERGE (s:Entity {name: $subject}) ON CREATE SET s._id = $sub_id ON MATCH SET s._id = coalesce(s._id, $sub_id) MERGE (o:Entity {name: $object}) ON CREATE SET o._id = $obj_id ON MATCH SET o._id = coalesce(o._id, $obj_id) MERGE (s)-[r:WORKS_AT]->(o) SET r.predicate = $predicate WITH s, o MATCH (f:Fact {_id: $fact_id}) MERGE (s)-[:HAS_FACT]->(f) MERGE (o)-[:HAS_FACT]->(f)"
                .to_string()
        )
    );
    assert_eq!(triple_cypher("Fact", &some("ann"), &some(""), &some("acme")), None);
    assert_eq!(triple_cypher("Fact", &None, &some("likes"), &some("acme")), None);
    assert_eq!(
        graph_match_cypher("Fact", 2),
        "MATCH (e:Entity) WHERE toLower($input) CONTAINS toLower(e.name) MATCH (e)-[*1..2]-(related) WHERE related:Fact RETURN DISTINCT related._id AS id"
    );
}

#[test]
fn definitions_by_name() {
    let program = parse(
        r#"
            memory Fact { subject: string score: float }
            on ingest(text: string) { }
            namespace n {
                on ingest() { }
                memory Note { body: string }
                query Q(): Fact[] { from Fact }
            }
            update Fact { on_access { } }
            memory Fact { subject: string }
        "#,
    )
    .unwrap();
    let defs = collect_definitions(&program.items);
    assert_eq!(defs.handler_names(), vec!["ingest"]);
    assert_eq!(defs.query_names(), vec!["Q"]);
    let mut mems = defs.memory_names();
    mems.sort();
    assert_eq!(mems, vec!["Fact", "Note"]);
    assert_eq!(defs.updates.len(), 1);
    let mut tables = defs.table_specs();
    tables.sort();
    assert_eq!(
        tables,
        vec![
            ("Fact".to_string(), vec![("subject".to_string(), "string".to_string())]),
            ("Note".to_string(), vec![("body".to_string(), "string".to_string())]),
        ]
    );
    let (_, latest) = defs.handlers.iter().rev().find(|(n, _)| n == "ingest").unwrap();
    assert!(latest.params.is_empty());
    assert_eq!(defs.handlers.len(), 1);
    assert_eq!(defs.memories.len(), 2);
    assert_eq!(defs.memories[0].0, "Fact");
    assert_eq!(defs.memories[0].1.len(), 1);
    assert!(defs.handler_for("ingest").unwrap().params.is_empty());
    assert_eq!(defs.handler_for("nope").err(), Some("unknown event: nope".to_string()));
    assert_eq!(defs.query_for("Q").unwrap().name, "Q");
    assert_eq!(defs.query_for("R").err(), Some("unknown query: R".to_string()));
}

#[test]
fn periodic_rules_of_updates_and_policies() {
    let program = parse(
        r#"
            update Fact { every 1h { } on_access { } every 2d { } }
            policy Cleanup { every 30m { } }
            namespace n { update Note { every 1w { } } }
        "#,
    )
    .unwrap();
    let mut rules = Vec::new();
    collect_periodic_rules(&program.items, &mut rules);
    let summary: Vec<(String, u64, String, usize)> = rules
        .iter()
        .map(|(name, secs, u)| (name.clone(), *secs, u.target.clone(), u.rules.len()))
        .collect();
    assert_eq!(
        summary,
        vec![
            ("Fact".to_string(), 3600, "Fact".to_string(), 3),
            ("Fact".to_string(), 172800, "Fact".to_string(), 3),
            ("Cleanup".to_string(), 1800, "Cleanup".to_string(), 1),
            ("Note".to_string(), 604800, "Note".to_string(), 1),
        ]
    );
}

#[test]
fn backend_choice() {
    let names = strings(&["graph1", "default", "graph2"]);
    assert_eq!(chosen_backend(&names, Some("graph2")), Some(2));
    assert_eq!(chosen_backend(&names, Some("other")), None);
    assert_eq!(chosen_backend(&names, None), Some(1));
    assert_eq!(chosen_backend(&strings(&["a"]), None), Some(0));
    assert_eq!(chosen_backend(&vec![], None), None);
}

#[test]
fn handler_parameters_bind_from_the_payload() {
    let param = |n: &str| synapse::ast::Param { name: n.to_string(), ty: synapse::types::Type::String };
    let params = vec![param("content"), param("missing"), param("thread")];
    let payload = vec![
        ("content".to_string(), PayloadValue::Text("hi".to_string())),
        ("thread".to_string(), PayloadValue::Json("1".to_string())),
        ("content".to_string(), PayloadValue::Text("later".to_string())),
    ];
    assert_eq!(
        handler_bindings(&params, &payload),
        vec![
            ("content".to_string(), PayloadValue::Text("later".to_string())),
            ("thread".to_string(), PayloadValue::Json("1".to_string())),
        ]
    );
}

#[test]
fn surrealql_statements() {
    let fields = vec![("a".to_string(), "1".to_string()), ("b".to_string(), "'x'".to_string())];
    assert_eq!(update_surql("Fact", "abc", &fields), "UPDATE Fact:`abc` SET a = 1, b = 'x';");
    let some = |s: &str| Some(s.to_string());
    assert_eq!(
        triple_surql(&some("Ann Lee"), &some("works at"), &some("Acme-Co"), "f1"),
        Some(
            "UPDATE Entity:Ann_Lee SET name = 'Ann Lee'; UPDATE Entity:Acme_Co SET name = 'Acme-Co'; RELATE Entity:Ann_Lee->WORKS_AT->Entity:Acme_Co SET predicate = 'works at', fact_id = 'f1';"
                .to_string()
        )
    );
    assert_eq!(triple_surql(&some("a"), &None, &some("b"), "f"), None);
    assert_eq!(
        graph_match_surql("ann", 2),
        "SELECT ->?[2]->?.fact_id AS ids FROM Entity WHERE string::lowercase(name) CONTAINSANY string::lowercase('ann');"
    );
}

#[test]
fn cypher_node_statement() {
    assert_eq!(
        merge_node_cypher("Fact", &strings(&["subject", "score"])),
        "MERGE (n:Fact {_id: $id}) SET n += {_id: $id, subject: $subject, score: $score}"
    );
    assert_eq!(merge_node_cypher("T", &vec![]), "MERGE (n:T {_id: $id}) SET n += {_id: $id}");
}

#[test]
fn aql_graph_match() {
    assert_eq!(
        graph_match_aql("Fact", 3),
        "FOR entity IN Entity\n                FILTER CONTAINS(LOWER($input), LOWER(entity.name))\n                FOR v, e, p IN 1..3 ANY entity Fact_edges\n                    FILTER IS_SAME_COLLECTION('Fact', v)\n                    RETURN DISTINCT v._id_field"
    );
}

#[test]
fn regex_patterns_that_do_not_compile_are_dropped() {
    let body = query_body_of(
        r#"query Q(): Fact[] {
            from Fact
            where regex(subject, "foo(bar") and regex(kind, "^k[0-9]+$") and regex(name, pat)
        }"#,
    );
    let f = &query_request(&body).filter;
    assert_eq!(f.regex.len(), 2);
    assert_eq!(f.regex[0].field, "kind");
    assert!(matches!(&f.regex[0].pattern, Pattern::Literal(p) if p == "^k[0-9]+$"));
    assert_eq!(f.regex[1].field, "name");
    assert!(matches!(&f.regex[1].pattern, Pattern::Evaluated(_)));
}

#[test]
fn regex_pattern_decision() {
    assert!(keeps_regex("^a"));
    assert!(!keeps_regex(""));
    assert!(!keeps_regex("foo(bar"));
    assert!(!keeps_regex("[z-a]"));
    assert!(pattern_kept("x", true));
    assert!(!pattern_kept("x", false));
    assert!(!pattern_kept("", true));
}

#[test]
fn records_narrowed_to_candidates() {
    let records = strings(&["a", "b", "c", "b", "d"]);
    assert_eq!(within_candidates(&records, &strings(&["b", "d", "z"])), vec![1, 3, 4]);
    assert_eq!(within_candidates(&records, &strings(&[])), Vec::<usize>::new());
    assert_eq!(within_candidates(&strings(&[]), &strings(&["a"])), Vec::<usize>::new());
}

#[test]
fn backend_names_select_stores() {
    assert_eq!(vector_store("qdrant", true), Ok(VectorStore::Qdrant));
    assert_eq!(vector_store("chroma", false), Ok(VectorStore::ChromaDB));
    assert_eq!(vector_store("pinecone", false), Ok(VectorStore::Pinecone));
    assert_eq!(vector_store("pinecone", true), Err("unknown vector backend for auto: pinecone".to_string()));
    assert_eq!(vector_store("milvus", false), Err("unknown vector backend: milvus".to_string()));
    assert_eq!(graph_store("arango", true), Ok(GraphStore::ArangoDB));
    assert_eq!(graph_store("surreal", false), Ok(GraphStore::SurrealDB));
    assert_eq!(graph_store("memgraph", false), Ok(GraphStore::Memgraph));
    assert_eq!(graph_store("janus", true), Err("unknown graph backend for auto: janus".to_string()));
    assert_eq!(graph_store("janus", false), Err("unknown graph backend: janus".to_string()));
}

#[test]
fn connected_store_addresses() {
    assert_eq!(trim_trailing_slashes("http://h:8080//"), "http://h:8080");
    assert_eq!(trim_trailing_slashes("///"), "");
    assert_eq!(VectorBackendKind::connected(VectorStore::Qdrant, "http://q:6334/").url(), "http://q:6334/");
    assert_eq!(VectorBackendKind::connected(VectorStore::Weaviate, "http://w:8080/").url(), "http://w:8080");
    assert_eq!(GraphBackendKind::connected(GraphStore::Neo4j, "bolt://n:7687/").url(), "bolt://n:7687/");
    assert_eq!(GraphBackendKind::connected(GraphStore::SurrealDB, "http://s:8000/").url(), "http://s:8000");
    let db = StorageBackend::Sqlite("./data.db".to_string());
    assert!(matches!(db, StorageBackend::Sqlite(p) if p == "./data.db"));
}
