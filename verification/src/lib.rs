//! Context assembly, retrieval and record bookkeeping for a long-form
//! fiction writing assistant, verified with Verus.

pub mod generation;
pub mod json;
pub mod llm;
pub mod models;
pub mod order;
pub mod records;
pub mod prompt;
pub mod retrieval;
pub mod score;
pub mod seed;
pub mod texts;
pub mod text;
