//! `eval`: runs its arguments, joined by spaces, as a command line.
use vstd::prelude::*;
use crate::shell::{Shell, Dispatch, run_words};
use crate::text::{join_words, joined, views, words};

verus! {

/// Joins the arguments with single spaces and executes the result.
pub fn function(shell: &mut Shell, arguments: Vec<String>) -> (res: Dispatch)
    ensures
        res@ == run_words(words(joined(views(arguments@)))),
        final(shell)@ == old(shell)@,
    decreases words(joined(views(arguments@))).len(), 3nat,
{
    let command = join_words(&arguments);
    shell.exec(command.as_str())
}

} // verus!
