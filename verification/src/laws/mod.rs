//! What holds of the library as a whole.
pub mod analyses;
pub mod arriving;
pub mod bundling;
pub mod calendar;
pub mod contents;
pub mod detecting;
pub mod edits;
pub mod exporting;
pub mod filters;
pub mod keeping;
pub mod libraries;
pub mod measuring;
pub mod moving;
pub mod naming;
pub mod numbers;
pub mod offered;
pub mod offering;
pub mod publishing;
pub mod queueing;
pub mod reviews;
pub mod scanning;
pub mod scoring;
pub mod settings;
pub mod sharing;
pub mod texts;
pub mod timelines;
pub mod tracing;
pub mod videos;
pub mod words;
pub mod working;
