//! What the control API asks and answers.

use vstd::prelude::*;

use crate::json::Json;

verus! {

/// Asks for the endpoints under a path.
#[derive(Debug)]
pub struct ListRequest {
    pub path: Option<String>,
}

/// The endpoints.
#[derive(Debug)]
pub struct ListResponse {
    pub endpoints: Vec<Json>,
}

/// The mounts.
#[derive(Debug)]
pub struct MountsResponse {
    pub mounts: Vec<String>,
}

/// Asks for the descriptions of the endpoints under a path.
#[derive(Debug)]
pub struct SchemaRequest {
    pub path: Option<String>,
}

/// The descriptions.
#[derive(Debug)]
pub struct SchemaResponse {
    pub schema: Json,
}

/// How to read.
#[derive(Debug)]
pub struct Query {
    pub cursor: Option<String>,
    pub limit: Option<u32>,
    pub filter: Option<String>,
    pub fields: Option<String>,
    pub cursor_field: Option<String>,
}

impl Default for Query {
    fn default() -> (r: Self)
        ensures
            r.cursor is None,
            r.limit is None,
            r.filter is None,
            r.fields is None,
            r.cursor_field is None,
    {
        Query { cursor: None, limit: None, filter: None, fields: None, cursor_field: None }
    }
}

/// Asks for a page of rows.
#[derive(Debug)]
pub struct ReadRequest {
    pub path: String,
    pub query: Query,
}

/// Where the next page is.
#[derive(Debug)]
pub struct Cursor {
    pub next: Option<String>,
    pub total: Option<u32>,
}

/// A page of rows.
#[derive(Debug)]
pub struct ReadResponse {
    pub rows: Vec<Json>,
    pub cursor: Cursor,
}

/// Asks for an entity.
#[derive(Debug)]
pub struct GetRequest {
    pub path: String,
}

/// An entity.
#[derive(Debug)]
pub struct GetResponse {
    pub entity: Option<Json>,
    pub output: Json,
}

/// Asks to create an entity.
#[derive(Debug)]
pub struct CreateRequest {
    pub path: String,
    pub body: Json,
}

/// The created entity.
#[derive(Debug)]
pub struct CreateResponse {
    pub entity: Option<Json>,
    pub output: Json,
}

/// Asks to write rows.
#[derive(Debug)]
pub struct PutRequest {
    pub path: String,
    pub rows: Vec<Json>,
    pub schema: Option<Json>,
    pub disposition: Option<String>,
}

/// How the write went.
#[derive(Debug)]
pub struct PutResponse {
    pub output: Json,
}

/// Asks to run a pipe.
#[derive(Debug)]
pub struct PipeRequest {
    pub source: String,
    pub destination: String,
}

/// How the run went.
#[derive(Debug)]
pub struct PipeResponse {
    pub rows_written: u64,
}

} // verus!
