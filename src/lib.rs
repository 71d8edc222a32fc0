use vstd::prelude::*;

pub mod error;
pub mod listing;
pub mod logger;
pub mod order;
pub mod sync;
pub mod types;
pub mod util;
pub mod merge;
pub mod db;
pub mod dispatch;

verus! {

} // verus!
