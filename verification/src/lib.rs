//! A ring buffer of fixed capacity that keeps the most recent values of a
//! stream and hands them back newest first.

pub mod model;
pub mod ring;

pub use ring::Iter;
pub use ring::VecCircBuf;
