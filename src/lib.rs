pub mod db;
pub mod index;
pub mod laws;
pub mod model;
pub mod package;
pub mod query;
pub mod record;
pub mod scalar;
pub mod workflow;
