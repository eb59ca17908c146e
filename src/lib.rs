pub mod buffer;
pub mod request;
pub mod string_map;
pub mod tokenize;

pub use request::{decode, span_at, DecodeError, Request, Slice, HEADER_SLOTS};
pub use string_map::StringMap;
