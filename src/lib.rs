//! Book records, their covers, and the planning of chunked uploads for a
//! desktop e-book library.
pub mod book;
pub mod ingest;
pub mod store;
pub mod upload;
