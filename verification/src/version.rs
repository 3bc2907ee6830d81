use vstd::prelude::*;

verus! {

/// The version of this application.
pub const APP_VERSION: &'static str = "0.1.0";

} // verus!
