//! Static files served alongside the library pages.

use vstd::prelude::*;

verus! {

/// A static file, named by its path under the asset folder.
pub struct StaticFile<T>(pub T);

} // verus!
