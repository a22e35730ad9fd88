//! `false`: does nothing, unsuccessfully.
use vstd::prelude::*;
use crate::shell::Shell;

verus! {

/// Exits with 1 whatever the arguments.
pub fn function(shell: &mut Shell, arguments: Vec<String>) -> (res: i32)
    ensures
        res == 1,
        final(shell)@ == old(shell)@,
{
    1
}

} // verus!
