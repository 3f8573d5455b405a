use synapse::errors::SynapseError;
use synapse::parser;
use synapse::typeck::check;

#[test]
fn check_valid_program() {
    let prog = parser::parse(
        r#"
            memory Note {
                content: string
                created_at: timestamp
            }
            on save(content: string) {
                store(Note {
                    content: content,
                    created_at: now()
                })
            }
            query GetAll(): Note[] {
                from Note
                order by created_at desc
            }
        "#,
    )
    .unwrap();

    let result = check(&prog);
    assert!(result.is_ok());
}

#[test]
fn check_unknown_memory_in_update() {
    let prog = parser::parse(
        r#"
            update NonExistent {
                on_access {
                    x = 1
                }
            }
        "#,
    )
    .unwrap();

    let result = check(&prog);
    assert!(result.is_err());
}

#[test]
fn check_duplicate_fields() {
    let prog = parser::parse(
        r#"
            memory Bad {
                name: string
                name: int
            }
        "#,
    )
    .unwrap();

    let result = check(&prog);
    assert!(result.is_err());
}

fn errors_of(source: &str) -> String {
    match check(&parser::parse(source).unwrap()) {
        Err(SynapseError::Validation(m)) => m,
        Err(other) => panic!("unexpected error {:?}", other),
        Ok(_) => String::new(),
    }
}

#[test]
fn check_reports_every_error_in_order() {
    let m = errors_of(
        r#"
            memory Bad {
                name: string
                name: int
                score: float[1.5, 0.25]
                n: int = "x"
            }
            update Missing { on_access { x = 1 } }
            query Q(): Bad[] { from Bad, Other }
            on e() { store(Nope { a: 1 }) store(Bad { zzz: 2 }) }
        "#,
    );
    assert_eq!(
        m,
        "duplicate field 'name' in memory 'Bad'\n\
         bounded float [1.5,0.25] has min > max in field 'score' of memory 'Bad'\n\
         default value type mismatch for field 'n' in memory 'Bad': expected int, got string\n\
         update references unknown memory 'Missing'\n\
         query references unknown memory 'Other'\n\
         unknown memory type 'Nope' in struct init\n\
         unknown field 'zzz' in memory 'Bad'"
    );
}

#[test]
fn check_bounds_compare_as_numbers() {
    assert_eq!(errors_of("memory A { x: float[0.9, 10] }"), "");
    assert_eq!(errors_of("memory A { x: float[2, 2.000] }"), "");
    assert_eq!(
        errors_of("memory A { x: float[10.5, 9.75] }"),
        "bounded float [10.5,9.75] has min > max in field 'x' of memory 'A'"
    );
}

#[test]
fn check_defaults_promote_and_unwrap_optionals() {
    assert_eq!(errors_of("memory A { x: float = 1  y: int? = 2  z: float[0,1] = 0.5 }"), "");
    assert_eq!(
        errors_of("memory A { b: bool = 1 }"),
        "default value type mismatch for field 'b' in memory 'A': expected bool, got int"
    );
}

#[test]
fn check_memories_inside_namespaces_count() {
    assert_eq!(
        errors_of("namespace n { memory Note { c: string } } update Note { on_access { c = 1 } }"),
        ""
    );
}

#[test]
fn error_text_forms() {
    assert_eq!(SynapseError::Parse("bad".to_string()).to_string(), "Parse error: bad");
    assert_eq!(
        SynapseError::Type { message: "m".to_string(), location: "l".to_string() }.to_string(),
        "Type error at l: m"
    );
    assert_eq!(SynapseError::Validation("v".to_string()).to_string(), "Validation error: v");
}
