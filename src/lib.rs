//! An in-memory column store core: the codec algebra that describes how a column's
//! encoded data sections decode, and a batched query evaluator over decoded columns.

pub mod aggregator;
pub mod codec;
pub mod codec_op;
pub mod columns;
pub mod expression;
pub mod fmt;
pub mod plan;
pub mod query_engine;
pub mod types;
pub mod value;
