//! A small structured tracer: spans and events with levels and fields, a
//! directive language that decides which of them are shown, and a subscriber
//! that tracks how deeply spans are nested and renders what passes.

pub mod chars;
pub mod filter;
pub mod level;
pub mod metadata;
pub mod parser;
pub mod render;
pub mod subscriber;

pub use crate::filter::{Directive, EnvFilter, FieldFilter, FilterMode};
pub use crate::level::Level;
pub use crate::metadata::{EventMetadata, FieldSet, Location, SpanMetadata};
pub use crate::parser::{parse, ParseError};
pub use crate::render::with_level_styling;
pub use crate::subscriber::{SpanGuard, Subscriber};
