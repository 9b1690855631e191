//! Reads the store in which the Windows Search index keeps what it has
//! recorded, and reports on it: pages and trees, the catalog that describes
//! the tables, the records, their long values, and the sinks that render the
//! reports as JSON lines or as CSV rows.

pub mod btree;
pub mod bytes;
pub mod catalog;
pub mod csv_report;
pub mod decode;
pub mod encode;
pub mod error;
pub mod json_report;
pub mod long_value;
pub mod mapper;
pub mod page;
pub mod pipeline;
pub mod report;
pub mod scan;
pub mod schema;
pub mod text;
pub mod tree_laws;
pub mod value;
