//! The destination side of a Singer-style load into Iceberg tables.
//!
//! A load reads newline-delimited JSON messages: schemas, records, versions
//! to activate, and states. It lands the records of each configured stream in
//! a table and carries the stream's bookmark forward. This library holds the
//! decisions of such a load, each with its contract:
//!
//! - [`messages`] reads a line of input as a message, and [`ingest`] sorts
//!   the messages of an input into the channels of the writers;
//! - [`schema`] translates the JSON Schema of a stream into the columns of a
//!   table, and [`reconcile`] converts the fields of a record whose column
//!   has another type in the table;
//! - [`writer`] checks, converts and batches the records of one channel and
//!   plans its one commit;
//! - [`catalog`] marks the configured streams in the catalog that a source
//!   offers and plans their tables, [`table`] names, places and partitions a
//!   table, and [`state`] builds the state that a later load resumes from;
//! - [`plugin`] holds the configuration of a destination.
//!
//! Reading files and standard input, the catalog, the object store and the
//! Parquet files are the caller's part. JSON text, JSON Schema validation,
//! RFC 3339 times and the rules for table names are the work of other crates;
//! [`json`], [`validator`], [`reconcile`] and [`table`] say what is taken from
//! them on trust.

pub mod catalog;
pub mod error;
pub mod ingest;
pub mod json;
pub mod messages;
pub mod plugin;
pub mod reconcile;
pub mod schema;
pub mod state;
pub mod table;
pub mod text;
pub mod validator;
pub mod writer;
