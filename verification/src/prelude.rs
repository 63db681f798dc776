//! The names that most callers need.

pub use crate::fetcher::Fetcher;
pub use crate::package::{Config, GHPackage, Mode, SimplePackage};
pub use crate::traits::{Entry, EntryKey, EntryValue};
pub use crate::val::{GHValue, SimpleValue};
