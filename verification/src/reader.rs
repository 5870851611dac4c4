//! Typed reader composition over hierarchy loaders.

use crate::loader::Loader;
use vstd::prelude::*;

verus! {

/// A format-specific typed reader that is also a hierarchy [`Loader`].
///
/// A reader decorates a format loader, delegates the generic hierarchy
/// operations, and adds typed methods for its own documents, so a reader is
/// accepted anywhere a loader is expected.
pub trait Reader: Loader {}

} // verus!
