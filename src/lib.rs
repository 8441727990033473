//! Lightweight Unix timestamps: whole seconds since the epoch plus a
//! non-negative sub-second offset, with exact arithmetic and precision readers.

pub mod civil;
pub mod clock;
pub mod laws;
pub mod literal;
pub mod span;
pub mod timestamp;

pub use civil::MAX_CIVIL_SECONDS;
pub use civil::MIN_CIVIL_SECONDS;
pub use literal::ts;
pub use literal::ParseError;
pub use timestamp::Timestamp;
