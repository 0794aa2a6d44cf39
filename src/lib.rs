//! Pixel buffers, rays, and the swizzle accessor generator: a small grammar
//! naming a pool of fields and a range of lengths, an odometer that enumerates
//! every index tuple, and an emitter that renders each tuple as source text.
pub mod buf;
pub mod bytes;
pub mod combination;
pub mod comments;
pub mod emit;
pub mod grammar;
pub mod lexer;
pub mod parser;
pub mod ray;

pub use buf::{Buffer, Rgba};
pub use combination::generate_combination_indices;
pub use comments::strip_comments;
pub use emit::{emit_all, swizzle};
pub use grammar::{Arity, Mode, Swizzle, SwizzleError};
pub use parser::{parse_mode_and_separator, parse_pool_and_arity, parse_swizzle};
pub use ray::Ray;
