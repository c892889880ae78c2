//! A streaming delimited-text column projector.
//!
//! The library parses textual column specifications into a resolved column
//! mapping (a presence bitmap for `cut`, an ordered index list for
//! `reorder`), resolves header field names to column positions, and applies
//! the mapping to one record at a time. A record is an ordered sequence of
//! byte-string fields; tokenizing and serializing the delimited stream is
//! left to the caller.

use vstd::prelude::*;

pub mod bytes;
pub mod errors;
pub mod laws;
pub mod parser;
pub mod pipeline;
pub mod resolver;
pub mod selector;

pub use errors::ConfigError;
pub use errors::ParseError;
pub use errors::ProjectionError;
pub use errors::ResolutionError;

verus! {

/// The delimiter used when the caller names none.
pub const DEFAULT_DELIMITER: u8 = 44;

/// Checks a requested delimiter: it must be exactly one byte; when none is
/// requested the default comma is used.
pub fn delimiter_from_option(requested: &Option<Vec<u8>>) -> (r: Result<u8, ConfigError>)
    ensures
        match *requested {
            None => r == Ok::<u8, ConfigError>(DEFAULT_DELIMITER),
            Some(s) => if s@.len() == 1 {
                r == Ok::<u8, ConfigError>(s@[0])
            } else {
                r == Err::<u8, ConfigError>(ConfigError::BadDelimiter)
            },
        },
{
    match requested {
        None => Ok(DEFAULT_DELIMITER),
        Some(s) => {
            if s.len() == 1 {
                Ok(s[0])
            } else {
                Err(ConfigError::BadDelimiter)
            }
        },
    }
}

} // verus!
