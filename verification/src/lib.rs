//! Flat, struct-based error flow: the verified planning logic behind the
//! `error`, `united_error`, `throws` and `match_error` expansions.

pub mod unt;
pub mod text;
pub mod path;
pub mod sort;
pub mod blind_laws;
pub mod registry;
pub mod match_arms;
pub mod match_input;
pub mod throws;
pub mod agreement;
pub mod error_attr;
pub mod united;
pub mod purpose_laws;

pub use unt::{End, Unt};
