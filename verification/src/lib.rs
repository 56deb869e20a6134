//! Containers for separate Zed instances and the services panel of the
//! terminal: the paths, listings, dialogs and panel state, with their
//! contracts proved.
use vstd::prelude::*;

pub mod container_modals;
pub mod containers;
pub mod paths;
pub mod services_panel;
pub mod text;

verus! {

} // verus!
