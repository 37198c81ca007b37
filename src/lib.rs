//! URI Templates (RFC 6570, level 2): compile a template once, expand it with variable
//! values, and capture the values back out of a URI.
mod captures;
pub mod codec;
mod error;
pub mod laws;
pub mod template;
mod vars;

pub use captures::{Captures, Match};
pub use error::{Error, ErrorKind};
pub use template::{Operator, UriTemplate};
pub use vars::Vars;
