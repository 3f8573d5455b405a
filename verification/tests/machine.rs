use synapse::ast::{BinOp, Expr, Item, MemoryDef, UpdateRule};
use synapse::definitions::collect_definitions;
use synapse::machine::{program_context, run_handler, run_update, Ctx, Reply, Request, RunOutcome};
use synapse::parser::parse;
use synapse::value::{
    binop, group_by, index_value, is_truthy, value_text_exec, values_equal, BinopOutcome, Record, Value,
};

fn s(x: &str) -> Value {
    Value::Str(x.to_string())
}

fn rec(memory: &str, id: &str, fields: Vec<(&str, Value)>) -> Value {
    Value::Record(Record {
        memory: memory.to_string(),
        id: id.to_string(),
        fields: fields.into_iter().map(|(k, v)| (k.to_string(), v)).collect(),
    })
}

fn val(o: BinopOutcome) -> Value {
    match o {
        BinopOutcome::Value(v) => v,
        other => panic!("expected a value, got {:?}", other),
    }
}

fn as_int(v: &Value) -> i64 {
    match v {
        Value::Int(n) => *n,
        other => panic!("expected an int, got {:?}", other),
    }
}

fn boolean(v: &Value) -> bool {
    match v {
        Value::Bool(b) => *b,
        other => panic!("expected a bool, got {:?}", other),
    }
}

#[test]
fn integer_arithmetic() {
    assert_eq!(as_int(&val(binop(&Value::Int(7), BinOp::Add, &Value::Int(5)))), 12);
    assert_eq!(as_int(&val(binop(&Value::Int(7), BinOp::Sub, &Value::Int(10)))), -3);
    assert_eq!(as_int(&val(binop(&Value::Int(-7), BinOp::Div, &Value::Int(2)))), -3);
    assert_eq!(as_int(&val(binop(&Value::Int(-7), BinOp::Mod, &Value::Int(2)))), -1);
    assert!(matches!(val(binop(&Value::Int(1), BinOp::Div, &Value::Int(0))), Value::Null));
    assert!(matches!(binop(&Value::Int(i64::MAX), BinOp::Add, &Value::Int(1)), BinopOutcome::Overflow));
    assert!(matches!(binop(&Value::Int(i64::MIN), BinOp::Div, &Value::Int(-1)), BinopOutcome::Overflow));
    assert!(matches!(binop(&Value::Int(1), BinOp::Add, &Value::Float("0.5".to_string())), BinopOutcome::NeedsFloat));
    assert!(matches!(
        val(binop(&Value::Float("1.5".to_string()), BinOp::Div, &Value::Float("0".to_string()))),
        Value::Null
    ));
    assert!(matches!(val(binop(&s("a"), BinOp::Add, &s("b"))), Value::Str(t) if t == "ab"));
    assert!(matches!(val(binop(&s("a"), BinOp::Sub, &s("b"))), Value::Null));
}

#[test]
fn comparisons() {
    assert!(boolean(&val(binop(&Value::Int(2), BinOp::Lt, &Value::Int(3)))));
    assert!(boolean(&val(binop(&Value::Int(3), BinOp::Ge, &Value::Int(3)))));
    assert!(boolean(&val(binop(&s("apple"), BinOp::Lt, &s("banana")))));
    assert!(!boolean(&val(binop(&s("a"), BinOp::Le, &s("a")))));
    assert!(boolean(&val(binop(&s("b"), BinOp::Gt, &s("a")))));
    assert!(!boolean(&val(binop(&s("a"), BinOp::Lt, &Value::Int(1)))));
    assert!(matches!(binop(&Value::Int(1 << 60), BinOp::Lt, &Value::Int(1)), BinopOutcome::NeedsFloat));
    assert!(boolean(&val(binop(&Value::Int(0), BinOp::Or, &s("x")))));
    assert!(!boolean(&val(binop(&Value::Int(1), BinOp::And, &Value::Array(vec![])))));
}

#[test]
fn equality_of_values() {
    let a = rec("Fact", "1", vec![("x", Value::Int(1)), ("y", s("t"))]);
    let b = rec("Fact", "1", vec![("y", s("t")), ("x", Value::Int(1))]);
    let c = rec("Fact", "1", vec![("y", s("t"))]);
    assert!(values_equal(&a, &b));
    assert!(!values_equal(&a, &c));
    assert!(boolean(&val(binop(&a, BinOp::Eq, &b))));
    assert!(boolean(&val(binop(&a, BinOp::Ne, &c))));
    assert!(boolean(&val(binop(&Value::Array(vec![Value::Int(1)]), BinOp::Eq, &Value::Array(vec![Value::Int(1)])))));
    let f = Value::Array(vec![Value::Float("1.0".to_string())]);
    assert!(matches!(binop(&f, BinOp::Eq, &f), BinopOutcome::NeedsFloat));
}

#[test]
fn truthiness() {
    assert!(!is_truthy(&Value::Null));
    assert!(!is_truthy(&Value::Int(0)));
    assert!(!is_truthy(&Value::Float("-0.0".to_string())));
    assert!(is_truthy(&Value::Float("0.25".to_string())));
    assert!(is_truthy(&Value::Float("NaN".to_string())));
    assert!(!is_truthy(&s("")));
    assert!(is_truthy(&rec("Fact", "1", vec![])));
}

#[test]
fn indexing() {
    let a = Value::Array(vec![Value::Int(10), Value::Int(20)]);
    assert_eq!(as_int(&index_value(&a, &Value::Int(1))), 20);
    assert!(matches!(index_value(&a, &Value::Int(2)), Value::Null));
    assert!(matches!(index_value(&a, &Value::Int(-1)), Value::Null));
    assert!(matches!(index_value(&s("ab"), &Value::Int(0)), Value::Null));
}

#[test]
fn grouping_by_a_field() {
    let xs = vec![
        rec("Fact", "1", vec![("subject", s("alice"))]),
        rec("Fact", "2", vec![("subject", s("bob"))]),
        rec("Fact", "3", vec![("subject", s("alice"))]),
        Value::Int(4),
    ];
    let groups = group_by(&xs, "subject");
    assert_eq!(groups.len(), 3);
    let ids = |g: &Value| -> Vec<String> {
        match g {
            Value::Array(items) => items
                .iter()
                .map(|v| match v {
                    Value::Record(r) => r.id.clone(),
                    other => format!("{:?}", other),
                })
                .collect(),
            other => panic!("expected a group, got {:?}", other),
        }
    };
    assert_eq!(ids(&groups[0]), vec!["1", "3"]);
    assert_eq!(ids(&groups[1]), vec!["2"]);
    assert_eq!(ids(&groups[2]), vec!["Int(4)"]);
}

fn context(src: &str) -> Ctx {
    let program = parse(src).unwrap();
    let items: Vec<Item> = program.items;
    let defs = collect_definitions(&items);
    program_context(&items, defs)
}

fn run(cx: &Ctx, event: &str, payload: Vec<(&str, Value)>) -> RunOutcome {
    let payload: Vec<(String, Value)> = payload.into_iter().map(|(k, v)| (k.to_string(), v)).collect();
    run_handler(cx, event, &payload, 1000).unwrap()
}

#[test]
fn handler_stores_a_record_by_replay() {
    let mut cx = context(
        r#"
            memory Note { content: string }
            on save(content: string) {
                store(Note { content: content })
            }
        "#,
    );
    match run(&cx, "save", vec![("content", s("hello"))]) {
        RunOutcome::Need(Request::NewId) => {}
        other => panic!("expected a request for an id, got {:?}", other),
    }
    cx.replies.push(Reply::Value(s("n1")));
    match run(&cx, "save", vec![("content", s("hello"))]) {
        RunOutcome::Need(Request::Store(r)) => {
            assert_eq!(r.memory, "Note");
            assert_eq!(r.id, "n1");
            assert!(matches!(&r.fields[..], [(k, Value::Str(v))] if k == "content" && v == "hello"));
        }
        other => panic!("expected a store, got {:?}", other),
    }
    cx.replies.push(Reply::Value(Value::Null));
    assert!(matches!(run(&cx, "save", vec![("content", s("hello"))]), RunOutcome::Done(None)));
    assert_eq!(run_handler(&cx, "nope", &vec![], 1000).err(), Some("unknown event: nope".to_string()));
}

#[test]
fn loops_pipes_and_return() {
    let cx = context(
        r#"
            on count(xs: int[]) {
                let total = 0
                for x in xs {
                    total = total + x
                }
                let big = xs |> filter(x => x > 1) |> map(x => x * 10)
                return [total, len(big), big[0]]
            }
        "#,
    );
    let xs = Value::Array(vec![Value::Int(1), Value::Int(2), Value::Int(3)]);
    match run(&cx, "count", vec![("xs", xs)]) {
        RunOutcome::Done(Some(Value::Array(v))) => {
            assert_eq!(v.len(), 3);
            // An assignment binds in the innermost scope: the loop body's,
            // which ends with each pass, so the outer `total` stays 0.
            assert_eq!(as_int(&v[0]), 0);
            assert_eq!(as_int(&v[1]), 2);
            assert_eq!(as_int(&v[2]), 20);
        }
        other => panic!("unexpected {:?}", other),
    }
}

#[test]
fn floats_and_failures_go_out() {
    let mut cx = context(
        r#"
            on half(x: float) {
                return x / 2
            }
            on boom() {
                return 9223372036854775807 + 1
            }
        "#,
    );
    match run(&cx, "half", vec![("x", Value::Float("3.0".to_string()))]) {
        RunOutcome::Need(Request::Float { op: BinOp::Div, .. }) => {}
        other => panic!("unexpected {:?}", other),
    }
    cx.replies.push(Reply::Value(Value::Float("1.5".to_string())));
    assert!(matches!(
        run(&cx, "half", vec![("x", Value::Float("3.0".to_string()))]),
        RunOutcome::Done(Some(Value::Float(t))) if t == "1.5"
    ));
    assert!(matches!(run(&cx, "boom", vec![]), RunOutcome::Fail(m) if m == "integer overflow"));
    let mut cx2 = context("on store_fail() { store(Note { a: 1 }) }");
    cx2.replies.push(Reply::Value(s("n2")));
    cx2.replies.push(Reply::Error("disk full".to_string()));
    assert!(matches!(run(&cx2, "store_fail", vec![]), RunOutcome::Fail(m) if m == "disk full"));
}

#[test]
fn calls_that_storage_or_a_model_answers() {
    let cx = context(
        r#"
            on ask(text: string) {
                let facts = extract(text)
                emit("other", text)
            }
            on other(t: string) {
                summarize(t)
            }
        "#,
    );
    match run(&cx, "ask", vec![("text", s("hi"))]) {
        RunOutcome::Need(Request::Call { name, args }) => {
            assert_eq!(name, "extract");
            assert!(matches!(&args[..], [Value::Str(t)] if t == "hi"));
        }
        other => panic!("unexpected {:?}", other),
    }
    let mut cx = cx;
    cx.replies.push(Reply::Value(Value::Array(vec![])));
    match run(&cx, "ask", vec![("text", s("hi"))]) {
        RunOutcome::Need(Request::Call { name, .. }) => assert_eq!(name, "summarize"),
        other => panic!("unexpected {:?}", other),
    }
}

#[test]
fn invariants_are_checked_before_storing() {
    let mut items = parse("on save(x: int) { store(Fact { score: x }) }").unwrap().items;
    items.push(Item::Memory(MemoryDef {
        name: "Fact".to_string(),
        fields: vec![],
        indexes: vec![],
        invariants: vec![Expr::Binary {
            left: Box::new(Expr::Ident("score".to_string())),
            op: BinOp::Gt,
            right: Box::new(Expr::Int(0)),
        }],
    }));
    let defs = collect_definitions(&items);
    let mut cx = program_context(&items, defs);
    cx.replies.push(Reply::Value(s("f1")));
    assert!(matches!(
        run(&cx, "save", vec![("x", Value::Int(-1))]),
        RunOutcome::Fail(m) if m == "invariant violation in 'Fact': condition evaluated to false"
    ));
    assert!(matches!(
        run(&cx, "save", vec![("x", Value::Int(5))]),
        RunOutcome::Need(Request::Store(r)) if r.id == "f1"
    ));
}

#[test]
fn conflicting_records_run_the_update_rule() {
    let src = r#"
        update Fact {
            on_conflict(old, new) {
                delete(old)
            }
        }
        on save(s: string, p: string) {
            store(Fact { subject: s, predicate: p })
        }
    "#;
    let payload = || vec![("s", s("alice")), ("p", s("likes"))];
    let mut cx = context(src);
    cx.replies.push(Reply::Value(s("new1")));
    match run(&cx, "save", payload()) {
        RunOutcome::Need(Request::Conflicts { memory, subject, predicate }) => {
            assert_eq!((memory.as_str(), subject.as_str(), predicate.as_str()), ("Fact", "alice", "likes"));
        }
        other => panic!("unexpected {:?}", other),
    }
    let mut with_old = context(src);
    with_old.replies.push(Reply::Value(s("new1")));
    with_old.replies.push(Reply::Value(Value::Array(vec![rec("Fact", "old1", vec![("subject", s("alice"))])])));
    match run(&with_old, "save", payload()) {
        RunOutcome::Need(Request::Get { memory, id }) => assert_eq!((memory.as_str(), id.as_str()), ("Fact", "old1")),
        other => panic!("unexpected {:?}", other),
    }
    with_old.replies.push(Reply::Value(rec("Fact", "old1", vec![("subject", s("alice"))])));
    match run(&with_old, "save", payload()) {
        RunOutcome::Need(Request::Delete { memory, id }) => assert_eq!((memory.as_str(), id.as_str()), ("Fact", "old1")),
        other => panic!("unexpected {:?}", other),
    }
    with_old.replies.push(Reply::Value(Value::Null));
    assert!(matches!(run(&with_old, "save", payload()), RunOutcome::Done(None)));
    cx.replies.push(Reply::Value(Value::Array(vec![])));
    assert!(matches!(run(&cx, "save", payload()), RunOutcome::Need(Request::Store(r)) if r.id == "new1"));
}

#[test]
fn text_of_values() {
    assert_eq!(value_text_exec(&rec("Note", "1", vec![("content", s("body")), ("x", s("y"))])), "body");
    assert_eq!(value_text_exec(&rec("Note", "1", vec![("a", s("one")), ("n", Value::Int(3)), ("b", s("two"))])), "one two");
    assert_eq!(
        value_text_exec(&Value::Array(vec![s("a"), Value::Int(-4), Value::Bool(true), Value::Float("2.5".to_string())])),
        "a\n-4\ntrue\n2.5"
    );
    assert_eq!(value_text_exec(&Value::Null), "");
}

#[test]
fn update_rule_runs_on_a_record() {
    let src = "update Fact { on_access { score = score + 1 } }";
    let items = parse(src).unwrap().items;
    let body = match &items[0] {
        Item::Update(u) => match &u.rules[0] {
            UpdateRule::OnAccess { body } => synapse::ast_copy::copy_stmts(body),
            other => panic!("unexpected {:?}", other),
        },
        other => panic!("unexpected {:?}", other),
    };
    let cx = context(src);
    let fact = match rec("Fact", "f1", vec![("score", Value::Int(1)), ("subject", s("x"))]) {
        Value::Record(r) => r,
        _ => unreachable!(),
    };
    match run_update("Fact", &body, &fact, &cx, 1000) {
        RunOutcome::Need(Request::Store(r)) => {
            assert_eq!(r.id, "f1");
            assert!(matches!(&r.fields[0], (k, Value::Int(2)) if k == "score"));
            assert!(matches!(&r.fields[1], (k, Value::Str(v)) if k == "subject" && v == "x"));
        }
        other => panic!("unexpected {:?}", other),
    }
}
