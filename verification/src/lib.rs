//! A CPU tensor execution engine over dense row-major storage: elementwise
//! arithmetic and comparison, masking, reductions, argmax/argmin, batched
//! matrix multiply, slicing, reshaping, concatenation, and seeded random
//! generation, over signed 64-bit integer elements with wrapping semantics.
pub mod compare;
pub mod concat;
pub mod elem;
pub mod elementwise;
pub mod indexing;
pub mod matmul;
pub mod random;
pub mod reduce;
pub mod shape;
pub mod tensor;
