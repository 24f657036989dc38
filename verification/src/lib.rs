//! Schemas for tabular data: a model of fields and logical types, a JSON
//! document form of a schema, inference of a schema from sample JSON
//! objects, and the merge of a declared schema with an inferred one.

pub mod asch;
pub mod basic;
pub mod codec;
pub mod codec_laws;
pub mod equality;
pub mod error;
pub mod infer;
pub mod infer_laws;
pub mod json;
pub mod merge;
pub mod model;
