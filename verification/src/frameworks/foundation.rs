//! Foundation.
pub mod ns_url_connection;
