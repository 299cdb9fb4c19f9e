//! Data preparation for a patent-phrase similarity classifier: labels,
//! tokenized records, padded batches and their masks, chunking, accuracy
//! counting, and the order in which a training run visits its batches.

pub mod batcher;
pub mod chunk;
pub mod data;
pub mod label;
pub mod metrics;
pub mod schedule;
pub mod tokenize;
