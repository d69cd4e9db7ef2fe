//! Ingestion core for a documentation warehouse: identifier allocation,
//! project discovery, and the decisions of the load pipeline.

pub mod ids;
pub mod entities;
pub mod documents;
pub mod paths;
pub mod text;
mod vecs;
pub mod pipeline;
pub mod commit;
pub mod stats;
pub mod db_stats;
pub mod discovery;
pub mod store_model;
