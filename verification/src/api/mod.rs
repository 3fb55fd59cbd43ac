//! The control API: what is asked and answered over HTTP.

pub mod client;
pub mod error;
pub mod types;

pub use client::Client;
pub use error::{Error, Kind};
pub use types::{
    CreateRequest, CreateResponse, Cursor, GetRequest, GetResponse, ListRequest, ListResponse,
    MountsResponse, PipeRequest, PipeResponse, PutRequest, PutResponse, Query, ReadRequest,
    ReadResponse, SchemaRequest, SchemaResponse,
};
