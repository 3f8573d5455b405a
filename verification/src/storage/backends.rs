//! The stores that the runtime connects to: which kind a configured backend
//! name selects, and the address that a connected store is known by.
use vstd::prelude::*;
use crate::text::text_eq;

verus! {

/// `s` without its trailing `/` characters (what `str::trim_end_matches('/')`
/// gives).
pub open spec fn trim_slashes(s: Seq<char>) -> Seq<char>
    decreases s.len(),
{
    if s.len() > 0 && s.last() == '/' {
        trim_slashes(s.drop_last())
    } else {
        s
    }
}

/// Removes the trailing `/` characters of `s`.
pub fn trim_trailing_slashes(s: &str) -> (r: String)
    ensures
        r@ == trim_slashes(s@),
{
    let mut e = s.unicode_len();
    assert(s@.subrange(0, e as int) =~= s@);
    while e > 0 && s.get_char(e - 1) == '/'
        invariant
            e <= s@.len(),
            trim_slashes(s@) == trim_slashes(s@.subrange(0, e as int)),
        decreases e,
    {
        assert(s@.subrange(0, e as int).drop_last() =~= s@.subrange(0, e - 1));
        e = e - 1;
    }
    proof {
        assert(s@.subrange(0, e as int).len() == e);
    }
    String::from_str(s.substring_char(0, e))
}

/// Kinds of vector store.
#[derive(Debug, Clone, Copy, PartialEq, Eq, Structural)]
pub enum VectorStore {
    Qdrant,
    Pinecone,
    Weaviate,
    ChromaDB,
}

/// Kinds of graph store.
#[derive(Debug, Clone, Copy, PartialEq, Eq, Structural)]
pub enum GraphStore {
    Neo4j,
    Memgraph,
    ArangoDB,
    SurrealDB,
}

/// A connected vector store, by kind, with the address it is reached at.
#[derive(Debug, Clone)]
pub enum VectorBackendKind {
    Qdrant(String),
    Pinecone(String),
    Weaviate(String),
    ChromaDB(String),
}

/// A connected graph store, by kind, with the address it is reached at.
#[derive(Debug, Clone)]
pub enum GraphBackendKind {
    Neo4j(String),
    Memgraph(String),
    ArangoDB(String),
    SurrealDB(String),
}

/// A relational store: SQLite, with the path of its database file.
#[derive(Debug, Clone)]
pub enum StorageBackend {
    Sqlite(String),
}

/// The vector store kind that backend name `name` selects; a store that the
/// runtime starts itself (`auto`) cannot be Pinecone.
pub open spec fn vector_store_named(name: Seq<char>, auto: bool) -> Option<VectorStore> {
    if name == "qdrant"@ {
        Some(VectorStore::Qdrant)
    } else if name == "pinecone"@ && !auto {
        Some(VectorStore::Pinecone)
    } else if name == "weaviate"@ {
        Some(VectorStore::Weaviate)
    } else if name == "chromadb"@ || name == "chroma"@ {
        Some(VectorStore::ChromaDB)
    } else {
        None
    }
}

/// The graph store kind that backend name `name` selects.
pub open spec fn graph_store_named(name: Seq<char>) -> Option<GraphStore> {
    if name == "neo4j"@ {
        Some(GraphStore::Neo4j)
    } else if name == "memgraph"@ {
        Some(GraphStore::Memgraph)
    } else if name == "arangodb"@ || name == "arango"@ {
        Some(GraphStore::ArangoDB)
    } else if name == "surrealdb"@ || name == "surreal"@ {
        Some(GraphStore::SurrealDB)
    } else {
        None
    }
}

/// The message for a backend name that selects no store of kind `what`
/// (`vector` or `graph`).
pub open spec fn unknown_backend_text(what: Seq<char>, name: Seq<char>, auto: bool) -> Seq<char> {
    "unknown "@ + what + (if auto {
        " backend for auto: "@
    } else {
        " backend: "@
    }) + name
}

fn unknown_backend(what: &str, name: &str, auto: bool) -> (r: String)
    ensures
        r@ == unknown_backend_text(what@, name@, auto),
{
    let mut m = String::from_str("unknown ");
    m.append(what);
    if auto {
        m.append(" backend for auto: ");
    } else {
        m.append(" backend: ");
    }
    m.append(name);
    m
}

/// The vector store kind that a configured backend name selects, or the
/// message that the name selects none.
pub fn vector_store(name: &str, auto: bool) -> (r: Result<VectorStore, String>)
    ensures
        match vector_store_named(name@, auto) {
            Some(k) => r == Ok::<VectorStore, String>(k),
            None => r matches Err(m) && m@ == unknown_backend_text("vector"@, name@, auto),
        },
{
    if text_eq(name, "qdrant") {
        Ok(VectorStore::Qdrant)
    } else if text_eq(name, "pinecone") && !auto {
        Ok(VectorStore::Pinecone)
    } else if text_eq(name, "weaviate") {
        Ok(VectorStore::Weaviate)
    } else if text_eq(name, "chromadb") || text_eq(name, "chroma") {
        Ok(VectorStore::ChromaDB)
    } else {
        Err(unknown_backend("vector", name, auto))
    }
}

/// The graph store kind that a configured backend name selects, or the
/// message that the name selects none.
pub fn graph_store(name: &str, auto: bool) -> (r: Result<GraphStore, String>)
    ensures
        match graph_store_named(name@) {
            Some(k) => r == Ok::<GraphStore, String>(k),
            None => r matches Err(m) && m@ == unknown_backend_text("graph"@, name@, auto),
        },
{
    if text_eq(name, "neo4j") {
        Ok(GraphStore::Neo4j)
    } else if text_eq(name, "memgraph") {
        Ok(GraphStore::Memgraph)
    } else if text_eq(name, "arangodb") || text_eq(name, "arango") {
        Ok(GraphStore::ArangoDB)
    } else if text_eq(name, "surrealdb") || text_eq(name, "surreal") {
        Ok(GraphStore::SurrealDB)
    } else {
        Err(unknown_backend("graph", name, auto))
    }
}

impl VectorBackendKind {
    /// The kind of the store.
    pub open spec fn kind(&self) -> VectorStore {
        match self {
            VectorBackendKind::Qdrant(_) => VectorStore::Qdrant,
            VectorBackendKind::Pinecone(_) => VectorStore::Pinecone,
            VectorBackendKind::Weaviate(_) => VectorStore::Weaviate,
            VectorBackendKind::ChromaDB(_) => VectorStore::ChromaDB,
        }
    }

    /// The address the store is reached at.
    pub open spec fn address(&self) -> Seq<char> {
        match self {
            VectorBackendKind::Qdrant(u) => u@,
            VectorBackendKind::Pinecone(u) => u@,
            VectorBackendKind::Weaviate(u) => u@,
            VectorBackendKind::ChromaDB(u) => u@,
        }
    }

    /// A store of kind `kind` connected at `url`: Qdrant keeps the address
    /// as given, the others without trailing slashes.
    pub fn connected(kind: VectorStore, url: &str) -> (r: VectorBackendKind)
        ensures
            r.kind() == kind,
            r.address() == (if kind == VectorStore::Qdrant {
                url@
            } else {
                trim_slashes(url@)
            }),
    {
        match kind {
            VectorStore::Qdrant => VectorBackendKind::Qdrant(String::from_str(url)),
            VectorStore::Pinecone => VectorBackendKind::Pinecone(trim_trailing_slashes(url)),
            VectorStore::Weaviate => VectorBackendKind::Weaviate(trim_trailing_slashes(url)),
            VectorStore::ChromaDB => VectorBackendKind::ChromaDB(trim_trailing_slashes(url)),
        }
    }

    /// The address the store is reached at.
    pub fn url(&self) -> (r: &str)
        ensures
            r@ == self.address(),
    {
        match self {
            VectorBackendKind::Qdrant(u) => u.as_str(),
            VectorBackendKind::Pinecone(u) => u.as_str(),
            VectorBackendKind::Weaviate(u) => u.as_str(),
            VectorBackendKind::ChromaDB(u) => u.as_str(),
        }
    }
}

impl GraphBackendKind {
    /// The kind of the store.
    pub open spec fn kind(&self) -> GraphStore {
        match self {
            GraphBackendKind::Neo4j(_) => GraphStore::Neo4j,
            GraphBackendKind::Memgraph(_) => GraphStore::Memgraph,
            GraphBackendKind::ArangoDB(_) => GraphStore::ArangoDB,
            GraphBackendKind::SurrealDB(_) => GraphStore::SurrealDB,
        }
    }

    /// The address the store is reached at.
    pub open spec fn address(&self) -> Seq<char> {
        match self {
            GraphBackendKind::Neo4j(u) => u@,
            GraphBackendKind::Memgraph(u) => u@,
            GraphBackendKind::ArangoDB(u) => u@,
            GraphBackendKind::SurrealDB(u) => u@,
        }
    }

    /// A store of kind `kind` connected at `url`: the Bolt stores (Neo4j,
    /// Memgraph) keep the address as given, the HTTP ones drop trailing
    /// slashes.
    pub fn connected(kind: GraphStore, url: &str) -> (r: GraphBackendKind)
        ensures
            r.kind() == kind,
            r.address() == (if kind == GraphStore::Neo4j || kind == GraphStore::Memgraph {
                url@
            } else {
                trim_slashes(url@)
            }),
    {
        match kind {
            GraphStore::Neo4j => GraphBackendKind::Neo4j(String::from_str(url)),
            GraphStore::Memgraph => GraphBackendKind::Memgraph(String::from_str(url)),
            GraphStore::ArangoDB => GraphBackendKind::ArangoDB(trim_trailing_slashes(url)),
            GraphStore::SurrealDB => GraphBackendKind::SurrealDB(trim_trailing_slashes(url)),
        }
    }

    /// The address the store is reached at.
    pub fn url(&self) -> (r: &str)
        ensures
            r@ == self.address(),
    {
        match self {
            GraphBackendKind::Neo4j(u) => u.as_str(),
            GraphBackendKind::Memgraph(u) => u.as_str(),
            GraphBackendKind::ArangoDB(u) => u.as_str(),
            GraphBackendKind::SurrealDB(u) => u.as_str(),
        }
    }
}

} // verus!
