//! A verified parser for Type Language (TL) schema files, as used by TDLib,
//! together with the bookkeeping that routes TDLib responses to the requests
//! that are waiting for them.

pub mod encoding;
pub mod errors;
pub mod text;
pub mod tl;
pub mod tl_iterator;
pub mod separator_laws;

pub use tl_iterator::{parse_tl_file, TlIterator};
pub mod observer;
