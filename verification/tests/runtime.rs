use synapse::ast::{ChannelDef, ConfigBlock, ConfigEntry, ConfigValue, Duration, DurationUnit};
use synapse::channels::{ChannelEventType, ConnectorConfig};
use synapse::config::{GraphConfig, RuntimeConfig, VectorConfig};
use synapse::decimal::decimal_gt;
use synapse::docker::{container_action, hash_offset, instance_port, ContainerAction, ContainerState};
use synapse::interpreter::{cypher_param_names, type_to_storage_string, Scopes};
use synapse::lexer::is_lexable;
use synapse::parser::parse;
use synapse::plan::items_plan_lines;
use synapse::llm::{extern_prompt, strip_code_fences};
use synapse::storage::neo4j::{condition_to_cypher, CypherValue};
use synapse::storage::sqlite::{condition_to_sql, sql_type};
use synapse::storage::weaviate::uuid_from_string;
use synapse::storage::{arangodb, surrealdb, ConditionOp, StorageError};
use synapse::types::Type;

fn call(name: &str, arg: &str) -> ConfigValue {
    ConfigValue::FnCall { name: name.to_string(), arg: arg.to_string() }
}

fn entry(key: &str, value: ConfigValue) -> ConfigEntry {
    ConfigEntry { key: key.to_string(), value }
}

fn lookup<'a, V>(l: &'a [(String, V)], k: &str) -> Option<&'a V> {
    l.iter().rev().find(|(n, _)| n == k).map(|(_, v)| v)
}

#[test]
fn event_names_round_trip() {
    for name in ["message", "edit", "delete", "reaction", "thread_reply", "file_upload",
        "member_join", "member_leave", "custom_thing"]
    {
        assert_eq!(ChannelEventType::from_str(name).as_str(), name);
    }
    assert_eq!(ChannelEventType::from_str("thread_reply"), ChannelEventType::ThreadReply);
    assert_eq!(
        ChannelEventType::from_str("pinned"),
        ChannelEventType::Custom("pinned".to_string())
    );
    assert_eq!(ChannelEventType::Custom("x".to_string()).as_str(), "x");
}

#[test]
fn connector_config_set_and_get() {
    let mut c = ConnectorConfig::new();
    assert_eq!(c.get("token"), None);
    c.set("token", "abc");
    assert_eq!(c.params.len(), 1);
    c.set("channel", "general");
    assert_eq!(c.params.len(), 2);
    c.set("token", "xyz");
    assert_eq!(c.params.len(), 2);
    assert_eq!(c.get("token"), Some("xyz"));
    assert_eq!(c.get("channel"), Some("general"));
    assert_eq!(c.get("other"), None);
    assert_eq!(
        c.params,
        vec![("token".to_string(), "xyz".to_string()), ("channel".to_string(), "general".to_string())]
    );
}

#[test]
fn config_vectors_keep_each_name_once() {
    let block = ConfigBlock {
        entries: vec![
            entry("vector", call("auto", "qdrant")),
            entry("vector", call("weaviate", "http://w:8080")),
        ],
    };
    let cfg = RuntimeConfig::from_config_block(&block);
    assert_eq!(cfg.vectors.len(), 1);
    match lookup(&cfg.vectors, "default") {
        Some(VectorConfig::External { backend, url }) => {
            assert_eq!(backend, "weaviate");
            assert_eq!(url, "http://w:8080");
        }
        other => panic!("unexpected {:?}", other),
    }
}

#[test]
fn config_block_to_runtime_config() {
    let block = ConfigBlock {
        entries: vec![
            entry("storage", call("sqlite", "./data.db")),
            entry("vector", call("auto", "qdrant")),
            entry(
                "graph",
                ConfigValue::Dict(vec![
                    ("kg".to_string(), call("neo4j", "bolt://h:7687")),
                    ("alt".to_string(), ConfigValue::Auto),
                    ("off".to_string(), ConfigValue::Disabled),
                ]),
            ),
            entry("embedding", call("openai", "text-embedding-3-small")),
            entry("extractor", ConfigValue::Disabled),
            entry("unknown", call("a", "b")),
        ],
    };
    let cfg = RuntimeConfig::from_config_block(&block);
    let s = cfg.storage.as_ref().unwrap();
    assert_eq!((s.backend.as_str(), s.url.as_str()), ("sqlite", "./data.db"));
    match lookup(&cfg.vectors, "default") {
        Some(VectorConfig::Auto { backend }) => assert_eq!(backend, "qdrant"),
        other => panic!("unexpected {:?}", other),
    }
    match lookup(&cfg.graphs, "kg") {
        Some(GraphConfig::External { backend, url }) => {
            assert_eq!(backend, "neo4j");
            assert_eq!(url, "bolt://h:7687");
        }
        other => panic!("unexpected {:?}", other),
    }
    match lookup(&cfg.graphs, "alt") {
        Some(GraphConfig::Auto { backend }) => assert_eq!(backend, "neo4j"),
        other => panic!("unexpected {:?}", other),
    }
    assert!(lookup(&cfg.graphs, "off").is_none());
    assert_eq!(cfg.embedding.as_ref().unwrap().model, "text-embedding-3-small");
    assert!(cfg.extractor.is_none());
    assert_eq!(cfg.host, "localhost");
    assert_eq!(cfg.port, 8080);
}

#[test]
fn channel_from_def() {
    let def = ChannelDef {
        name: "slack".to_string(),
        source: "slack".to_string(),
        config: vec![
            entry("token", call("env", "SLACK_TOKEN")),
            entry("missing", call("env", "NOT_SET")),
            entry("channel", call("name", "general")),
            entry("flag", ConfigValue::Auto),
        ],
        poll_interval: Some(Duration { value: 2, unit: DurationUnit::Minute }),
        events: vec![],
    };
    let env = vec![("SLACK_TOKEN".to_string(), "secret".to_string())];
    let mut cfg = RuntimeConfig::default();
    cfg.add_channel_from_def(&def, &env);
    let ch = lookup(&cfg.channels, "slack").unwrap();
    assert_eq!(ch.source, "slack");
    assert_eq!(ch.poll_interval_secs, 120);
    assert_eq!(ch.config.get("token"), Some("secret"));
    assert_eq!(ch.config.get("missing"), Some(""));
    assert_eq!(ch.config.get("channel"), Some("name(general)"));
    assert_eq!(ch.config.get("flag"), Some(""));

    let def2 = ChannelDef { poll_interval: None, config: vec![], ..def };
    cfg.add_channel_from_def(&def2, &env);
    assert_eq!(lookup(&cfg.channels, "slack").unwrap().poll_interval_secs, 300);
}

#[test]
fn duration_seconds() {
    assert_eq!(Duration { value: 3, unit: DurationUnit::Week }.to_secs(), 1814400);
    assert_eq!(Duration { value: 24, unit: DurationUnit::Hour }.to_secs(), 86400);
    assert_eq!(Duration { value: 7, unit: DurationUnit::Second }.to_secs(), 7);
}

#[test]
fn cypher_conditions() {
    let f = "age".to_string();
    assert_eq!(condition_to_cypher(&f, ConditionOp::Eq, &CypherValue::Null), "n.age IS NULL");
    assert_eq!(condition_to_cypher(&f, ConditionOp::Ne, &CypherValue::Null), "n.age IS NOT NULL");
    assert_eq!(condition_to_cypher(&f, ConditionOp::Lt, &CypherValue::Null), "n.age = null");
    assert_eq!(
        condition_to_cypher(&f, ConditionOp::Ge, &CypherValue::Text("30".to_string())),
        "n.age >= '30'"
    );
    assert_eq!(
        condition_to_cypher(&f, ConditionOp::Ne, &CypherValue::Text("x".to_string())),
        "n.age <> 'x'"
    );
}

#[test]
fn sqlite_column_types() {
    assert_eq!(sql_type("string"), "TEXT");
    assert_eq!(sql_type("int"), "INTEGER");
    assert_eq!(sql_type("float"), "REAL");
    assert_eq!(sql_type("bounded_float"), "REAL");
    assert_eq!(sql_type("bool"), "INTEGER");
    assert_eq!(sql_type("timestamp"), "TEXT");
    assert_eq!(sql_type("Note"), "TEXT");
}

#[test]
fn keys_are_sanitized() {
    assert_eq!(arangodb::sanitize_key("a b-c/é_1"), "a_b-c_é_1");
    assert_eq!(surrealdb::sanitize_key("a b-c/é_1"), "a_b_c_é_1");
    let once = arangodb::sanitize_key("x:y z");
    assert_eq!(arangodb::sanitize_key(&once), once);
    assert_eq!(surrealdb::surreal_id("abc"), "`abc`");
}

#[test]
fn uuid_is_stable_and_shaped() {
    let a = uuid_from_string("hello");
    assert_eq!(a, uuid_from_string("hello"));
    assert_ne!(a, uuid_from_string("world"));
    let parts: Vec<&str> = a.split('-').collect();
    assert_eq!(parts.iter().map(|p| p.len()).collect::<Vec<_>>(), vec![8, 4, 4, 4, 12]);
    assert!(a.chars().all(|c| c == '-' || c.is_ascii_hexdigit() && !c.is_ascii_uppercase()));
}

#[test]
fn port_offsets() {
    assert_eq!(hash_offset("default"), 0);
    assert!(hash_offset("second") < 100);
    assert_eq!(hash_offset("second"), hash_offset("second"));
}

#[test]
fn code_fences_are_stripped() {
    assert_eq!(strip_code_fences("  ```json\n{\"a\": 1}\n```  "), "{\"a\": 1}");
    assert_eq!(strip_code_fences("```\n[1]\n```"), "[1]");
    assert_eq!(strip_code_fences("```json [2]"), "[2]");
    assert_eq!(strip_code_fences("  plain  "), "plain");
}

#[test]
fn storage_type_names() {
    assert_eq!(type_to_storage_string(&Type::Optional(Box::new(Type::Int))), "int");
    assert_eq!(
        type_to_storage_string(&Type::BoundedFloat { min: "0".to_string(), max: "1".to_string() }),
        "float"
    );
    assert_eq!(type_to_storage_string(&Type::Array(Box::new(Type::Int))), "string");
    assert_eq!(type_to_storage_string(&Type::Named("Note".to_string())), "string");
    assert_eq!(type_to_storage_string(&Type::Timestamp), "timestamp");
}

#[test]
fn storage_error_text() {
    assert_eq!(StorageError::Sqlite("locked".to_string()).to_string(), "SQLite error: locked");
    assert_eq!(StorageError::NotConnected("qdrant".to_string()).to_string(), "Not connected: qdrant");
}

#[test]
fn type_text() {
    let t = Type::Array(Box::new(Type::Optional(Box::new(Type::BoundedFloat {
        min: "0.0".to_string(),
        max: "1.50".to_string(),
    }))));
    assert_eq!(t.to_string(), "float[0,1.5]?[]");
    assert!(Type::Int.is_numeric());
    assert!(!Type::String.is_numeric());
    assert_eq!(*t.inner_type(), Type::Optional(Box::new(Type::BoundedFloat {
        min: "0.0".to_string(),
        max: "1.50".to_string(),
    })));
}

#[test]
fn cypher_scope_names() {
    assert_eq!(
        cypher_param_names("MATCH (n {name: $entity}) RETURN $limit_x, $ $9a"),
        vec!["MATCH", "entity", "limit_x", "9a"]
    );
    assert_eq!(cypher_param_names("$only"), vec!["only"]);
    assert!(cypher_param_names("  ").is_empty());
}

#[test]
fn sql_conditions() {
    let f = "score".to_string();
    assert_eq!(condition_to_sql(&f, ConditionOp::Eq, true), ("score IS NULL".to_string(), false));
    assert_eq!(condition_to_sql(&f, ConditionOp::Ne, true), ("score IS NOT NULL".to_string(), false));
    assert_eq!(condition_to_sql(&f, ConditionOp::Gt, true), ("score = ?".to_string(), true));
    assert_eq!(condition_to_sql(&f, ConditionOp::Ne, false), ("score != ?".to_string(), true));
    assert_eq!(condition_to_sql(&f, ConditionOp::Le, false), ("score <= ?".to_string(), true));
}

#[test]
fn plan_lines_for_items() {
    let prog = parse(
        r#"
            config { }
            memory A { x: int y: string }
            namespace n { on e() { } query Q(): A[] { from A } }
            update A { on_access { } every 1h { } }
            policy P { every 2d { } }
            @extern fn f()
        "#,
    )
    .unwrap();
    assert_eq!(
        items_plan_lines(&prog.items, &"  ".to_string()),
        vec![
            "  ~ config block",
            "  + A (new, 2 fields)",
            "  namespace n:",
            "    + on e (new handler)",
            "    + query Q (new)",
            "  + update A (2 rules)",
            "  + policy P (1 rules)",
            "  + @extern fn f",
        ]
    );
}

#[test]
fn lexability() {
    assert!(is_lexable("x = 9223372036854775807"));
    assert!(!is_lexable("x = 9223372036854775808"));
    assert!(is_lexable("every 18446744073709551615s"));
    assert!(!is_lexable("every 18446744073709551616s"));
    assert!(is_lexable("99999999999999999999999.5"));
}

#[test]
fn decimal_order() {
    let d = |s: &str| s.to_string();
    assert!(decimal_gt(&d("1.5"), &d("1.25")));
    assert!(!decimal_gt(&d("1.25"), &d("1.5")));
    assert!(!decimal_gt(&d("2.50"), &d("2.5")));
    assert!(!decimal_gt(&d("2.5"), &d("2.5")));
    assert!(decimal_gt(&d("10"), &d("9.999")));
    assert!(decimal_gt(&d("007.1"), &d("7")));
    assert!(decimal_gt(&d("3"), &d("2.5")) && decimal_gt(&d("2.5"), &d("2.05")));
    assert!(decimal_gt(&d("3"), &d("2.05")));
    assert!(!decimal_gt(&d("x"), &d("1")));
    assert!(!decimal_gt(&d("1."), &d("0")));
}

#[test]
fn containers_and_ports() {
    assert_eq!(container_action(ContainerState::Running), ContainerAction::Nothing);
    assert_eq!(container_action(ContainerState::Stopped), ContainerAction::Start);
    assert_eq!(container_action(ContainerState::NotFound), ContainerAction::Create);
    assert_eq!(instance_port(8090, "default"), 8090);
    let p = instance_port(8090, "memories");
    assert_eq!(p, 8090 + hash_offset("memories"));
    assert!(p < 8190);
}

#[test]
fn extern_function_prompt() {
    let params = vec![
        ("text".to_string(), "String".to_string()),
        ("n".to_string(), "Int".to_string()),
    ];
    assert_eq!(
        extern_prompt("classify", &params, "String", &vec!["\"hi\"".to_string()]),
        "You are simulating a function call.\nFunction: classify(text: String, n: Int) -> String\nArguments:\n  text: String = \"hi\"\n  n: Int = null\n\nReturn the result as valid JSON. For arrays, return a JSON array. For objects, return a JSON object. For strings, return a JSON string. Respond with ONLY the JSON value."
    );
    assert_eq!(
        extern_prompt("now", &vec![], "timestamp", &vec![]),
        "You are simulating a function call.\nFunction: now() -> timestamp\nArguments:\n\n\nReturn the result as valid JSON. For arrays, return a JSON array. For objects, return a JSON object. For strings, return a JSON string. Respond with ONLY the JSON value."
    );
}

#[test]
fn variable_scopes() {
    let mut env: Scopes<i64> = Scopes::new();
    env.set("x", 1);
    assert_eq!(env.get("x"), Some(&1));
    env.push_scope();
    assert_eq!(env.get("x"), Some(&1));
    env.set("x", 2);
    env.set("y", 3);
    assert_eq!(env.get("x"), Some(&2));
    env.pop_scope();
    assert_eq!(env.get("x"), Some(&1));
    assert_eq!(env.get("y"), None);
    env.pop_scope();
    env.set("x", 5);
    assert_eq!(env.get("x"), None);
}
