//! Safety checks around destructive operations: the typed confirmation
//! phrase and recognizing the disk the running system lives on.
use vstd::prelude::*;

pub mod confirmation;
pub mod system_protection;

verus! {

} // verus!
