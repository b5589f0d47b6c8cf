//! Parser for the Netscape/Mozilla `cookies.txt` cookie-export format.
//!
//! The input text is split into lines; blank lines and `#` comments are
//! skipped, a `#HttpOnly_` prefix marks a data line whose cookie carries the
//! HttpOnly attribute, and every data line holds seven tab-separated fields.
//! Parsing either yields a [`CookieJar`] of [`CookieRecord`]s or stops at the
//! first malformed line with an [`error::Error`].

pub mod error;
pub mod laws;
pub mod num;
pub mod parser;
pub mod record;
pub mod text;

pub use crate::error::{Error, ParseError};
pub use crate::parser::{parse, CookieJarBuilder};
pub use crate::record::{CookieJar, CookieRecord};
