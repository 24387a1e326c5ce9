//! A vocabulary-learning engine: a spaced-repetition scheduler, a tokenizer and
//! text-word linker, an in-memory word store, and the sync-key codec used to
//! move a whole dataset between devices.
//!
//! Fractional quantities are held in fixed point: a stability of `1_000_000`
//! is one day, a difficulty or probability of `1_000_000` is `1.0`.
pub mod clock;
pub mod model;
pub mod review;
pub mod scheduler;
pub mod snapshot;
pub mod store;
pub mod sync;
pub mod tokenizer;
