//! Storage: errors, query conditions, and the helpers that the backends share.
pub mod neo4j;
pub mod sqlite;
pub mod arangodb;
pub mod surrealdb;
pub mod weaviate;
pub mod routing;
pub mod query_text;
pub mod backends;

use vstd::prelude::*;

verus! {

#[derive(Debug)]
pub enum StorageError {
    Sqlite(String),
    Qdrant(String),
    Neo4j(String),
    NotConnected(String),
}

/// The text that describes a storage error to a user.
pub open spec fn storage_error_text(e: StorageError) -> Seq<char> {
    match e {
        StorageError::Sqlite(m) => "SQLite error: "@ + m@,
        StorageError::Qdrant(m) => "Qdrant error: "@ + m@,
        StorageError::Neo4j(m) => "Neo4j error: "@ + m@,
        StorageError::NotConnected(m) => "Not connected: "@ + m@,
    }
}

impl StorageError {
    /// The error as a line of text (see [`storage_error_text`]).
    pub fn to_string(&self) -> (r: String)
        ensures
            r@ == storage_error_text(*self),
    {
        let (prefix, m) = match self {
            StorageError::Sqlite(m) => ("SQLite error: ", m),
            StorageError::Qdrant(m) => ("Qdrant error: ", m),
            StorageError::Neo4j(m) => ("Neo4j error: ", m),
            StorageError::NotConnected(m) => ("Not connected: ", m),
        };
        let mut s = String::from_str(prefix);
        s.append(m.as_str());
        s
    }
}

/// A comparison in a query condition.
#[derive(Debug, Clone, Copy, PartialEq, Eq, Structural)]
pub enum ConditionOp {
    Eq,
    Ne,
    Lt,
    Le,
    Gt,
    Ge,
}

/// Records within `hops` graph steps of `input`.
#[derive(Debug, Clone)]
pub struct GraphMatch {
    pub input: String,
    pub hops: usize,
}

/// A Cypher query with its named parameters; a later pair shadows an
/// earlier one with the same name.
#[derive(Debug, Clone)]
pub struct CypherQuery {
    pub query: String,
    pub params: Vec<(String, String)>,
}

/// What a comparison operator of the query languages that the stores speak
/// (SQL, Cypher, AQL, SurrealQL) says of two numbers: `=` and `==` that they
/// are equal, `!=` and `<>` that they differ, `<`, `<=`, `>`, `>=` that they
/// stand in that order; any other text says nothing of them.
pub open spec fn query_op_holds(t: Seq<char>, a: int, b: int) -> bool {
    if t == "="@ || t == "=="@ {
        a == b
    } else if t == "!="@ || t == "<>"@ {
        a != b
    } else if t == "<"@ {
        a < b
    } else if t == "<="@ {
        a <= b
    } else if t == ">"@ {
        a > b
    } else if t == ">="@ {
        a >= b
    } else {
        false
    }
}

/// Each comparison operator text means its comparison (see [`query_op_holds`]).
pub proof fn lemma_query_ops(a: int, b: int)
    ensures
        query_op_holds("="@, a, b) == (a == b),
        query_op_holds("=="@, a, b) == (a == b),
        query_op_holds("!="@, a, b) == (a != b),
        query_op_holds("<>"@, a, b) == (a != b),
        query_op_holds("<"@, a, b) == (a < b),
        query_op_holds("<="@, a, b) == (a <= b),
        query_op_holds(">"@, a, b) == (a > b),
        query_op_holds(">="@, a, b) == (a >= b),
{
    reveal_strlit("=");
    reveal_strlit("==");
    reveal_strlit("!=");
    reveal_strlit("<>");
    reveal_strlit("<");
    reveal_strlit("<=");
    reveal_strlit(">");
    reveal_strlit(">=");
    assert("=="@.len() != "="@.len());
    assert("=="@ != "="@);
    assert("!="@.len() != "="@.len());
    assert("!="@ != "="@);
    assert("!="@[0] != "=="@[0]);
    assert("!="@ != "=="@);
    assert("<>"@.len() != "="@.len());
    assert("<>"@ != "="@);
    assert("<>"@[0] != "=="@[0]);
    assert("<>"@ != "=="@);
    assert("<>"@[0] != "!="@[0]);
    assert("<>"@ != "!="@);
    assert("<"@[0] != "="@[0]);
    assert("<"@ != "="@);
    assert("<"@.len() != "=="@.len());
    assert("<"@ != "=="@);
    assert("<"@.len() != "!="@.len());
    assert("<"@ != "!="@);
    assert("<"@.len() != "<>"@.len());
    assert("<"@ != "<>"@);
    assert("<="@.len() != "="@.len());
    assert("<="@ != "="@);
    assert("<="@[0] != "=="@[0]);
    assert("<="@ != "=="@);
    assert("<="@[0] != "!="@[0]);
    assert("<="@ != "!="@);
    assert("<="@[1] != "<>"@[1]);
    assert("<="@ != "<>"@);
    assert("<="@.len() != "<"@.len());
    assert("<="@ != "<"@);
    assert(">"@[0] != "="@[0]);
    assert(">"@ != "="@);
    assert(">"@.len() != "=="@.len());
    assert(">"@ != "=="@);
    assert(">"@.len() != "!="@.len());
    assert(">"@ != "!="@);
    assert(">"@.len() != "<>"@.len());
    assert(">"@ != "<>"@);
    assert(">"@[0] != "<"@[0]);
    assert(">"@ != "<"@);
    assert(">"@.len() != "<="@.len());
    assert(">"@ != "<="@);
    assert(">="@.len() != "="@.len());
    assert(">="@ != "="@);
    assert(">="@[0] != "=="@[0]);
    assert(">="@ != "=="@);
    assert(">="@[0] != "!="@[0]);
    assert(">="@ != "!="@);
    assert(">="@[0] != "<>"@[0]);
    assert(">="@ != "<>"@);
    assert(">="@.len() != "<"@.len());
    assert(">="@ != "<"@);
    assert(">="@[0] != "<="@[0]);
    assert(">="@ != "<="@);
    assert(">="@.len() != ">"@.len());
    assert(">="@ != ">"@);
}

} // verus!
