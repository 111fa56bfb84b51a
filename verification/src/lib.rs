use vstd::prelude::*;

pub mod text;
pub mod markdown;
pub mod items;
pub mod integrity;
pub mod open_brain;
pub mod lcm;
pub mod durable;
pub mod external_context;

verus! {

} // verus!
