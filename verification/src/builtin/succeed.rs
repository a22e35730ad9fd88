//! `true`: does nothing, successfully.
use vstd::prelude::*;
use crate::shell::Shell;

verus! {

/// Exits with 0 whatever the arguments.
pub fn function(shell: &mut Shell, arguments: Vec<String>) -> (res: i32)
    ensures
        res == 0,
        final(shell)@ == old(shell)@,
{
    0
}

} // verus!
