//! Searching memories: the signals that rank them, and how these are brought
//! together. Scores are compared through whole numbers that are in the same order
//! as the scores; 0 stands for a score of zero.
pub mod cooccur;
pub mod hybrid;
pub mod importance;
pub mod keyword;
pub mod ranking;
pub mod rrf;
pub mod semantic;
pub mod semantic_edges;
pub mod temporal;
pub mod text_signals;
