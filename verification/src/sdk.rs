//! Types that a client of a running runtime receives.
use vstd::prelude::*;

verus! {

#[derive(Debug)]
pub enum SynapseClientError {
    Connection(String),
    Request(String),
    Query { query_name: String, message: String },
}

/// The text that describes a client error to a user.
pub open spec fn client_error_text(e: SynapseClientError) -> Seq<char> {
    match e {
        SynapseClientError::Connection(m) => "Connection error: "@ + m@,
        SynapseClientError::Request(m) => "Request error: "@ + m@,
        SynapseClientError::Query { query_name, message } => "Query error: "@ + query_name@
            + ": "@ + message@,
    }
}

impl SynapseClientError {
    /// The error as a line of text (see [`client_error_text`]).
    pub fn to_string(&self) -> (r: String)
        ensures
            r@ == client_error_text(*self),
    {
        match self {
            SynapseClientError::Connection(m) => {
                let mut s = String::from_str("Connection error: ");
                s.append(m.as_str());
                s
            },
            SynapseClientError::Request(m) => {
                let mut s = String::from_str("Request error: ");
                s.append(m.as_str());
                s
            },
            SynapseClientError::Query { query_name, message } => {
                let mut s = String::from_str("Query error: ");
                s.append(query_name.as_str());
                s.append(": ");
                s.append(message.as_str());
                s
            },
        }
    }
}

#[derive(Debug)]
pub struct HealthResponse {
    pub status: String,
    pub uptime_secs: i64,
}

#[derive(Debug)]
pub struct StatusResponse {
    pub status: String,
    pub handlers: Vec<String>,
    pub queries: Vec<String>,
    pub memories: Vec<String>,
    pub uptime_secs: i64,
}

} // verus!
