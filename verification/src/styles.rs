//! Marker for the application's color scheme. The color and style
//! values themselves belong to the terminal layer, which implements
//! them on its copy of this marker.

use vstd::prelude::*;

verus! {

/// The application's color scheme.
pub struct Styles;

} // verus!
