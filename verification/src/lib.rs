pub mod config;
pub mod headers;
pub mod script;
pub mod transformer;

use vstd::prelude::*;

verus! {

} // verus!
