//! Adapter between a `(size, alignment)` allocation interface and a
//! malloc/calloc/realloc/free style backend.
//!
//! The backend owns all real allocation state; this crate holds the binding
//! contract: how a language-level allocation request is translated into the
//! backend's size-only request model, what each backend entry point promises,
//! how the one-way guarded-sampling switch behaves, and how the backend's
//! statistics text is decoded without ever failing on malformed bytes.

pub mod adapter;
pub mod align;
pub mod heap;
pub mod mode;
pub mod text;

pub use adapter::TcMalloc;
pub use align::AllocRequest;
pub use heap::ModelAllocator;
pub use mode::SamplingMode;
