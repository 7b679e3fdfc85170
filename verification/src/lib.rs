//! A vocabulary trainer's core: a store that links words to the sentences
//! they occur in, a review scheduler in the style of SM-2, and the choice of
//! the next word and of the sentence to show for it.
//!
//! - `knowledge` is the store as a mathematical value, with its invariant;
//!   `store` is the store itself, `KnowledgeDB`.
//! - `ingest` takes sentences in; `tokens` finds their words with the
//!   lindera segmenter; `sentences` splits a text into sentences.
//! - `frequency` ranks words by a frequency list.
//! - `scheduler` computes review intervals; `review` records a review.
//! - `picker` chooses the word to review, `selector` the sentence to show.

mod clock;
pub mod frequency;
pub mod ingest;
pub mod knowledge;
pub mod picker;
pub mod review;
pub mod scheduler;
pub mod selector;
pub mod sentences;
pub mod store;
mod tables;
pub mod text;
pub mod tokens;
