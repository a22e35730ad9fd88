//! `pwd [-p]`: prints the working directory.
use vstd::prelude::*;
use vstd::utf8::encode_utf8;
use crate::error::{Error, error_message};
use crate::ioface::{Streams, terminated};
use crate::options::{known_outcome, OptionDecl, ParsedArgs, parse_args, parse_outcome};
use crate::shell::Shell;
use crate::text::views;

verus! {

/// What `pwd` reads of its environment: the working directory (or the text
/// of the error reading it gave) and the variable `PWD` (none when unset or
/// not text).
pub struct PwdEnv {
    pub cwd: Result<String, String>,
    pub pwd: Option<String>,
}

/// What the caller is asked to do next.
pub enum PwdAction {
    /// Make this path canonical and hand back the result or the error's text.
    Canonicalize(String),
    /// Stop the process: a value that `pwd` needs is missing.
    Abort,
    /// `pwd` is done, with this exit code.
    Finish(i32),
}

/// What the caller is asked to do next, as a value of the specification.
pub enum PwdActionView {
    Canonicalize(Seq<char>),
    Abort,
    Finish(i32),
}

impl View for PwdAction {
    type V = PwdActionView;

    open spec fn view(&self) -> PwdActionView {
        match self {
            PwdAction::Canonicalize(p) => PwdActionView::Canonicalize(p@),
            PwdAction::Abort => PwdActionView::Abort,
            PwdAction::Finish(c) => PwdActionView::Finish(*c),
        }
    }
}

/// Where `pwd` stands: waiting for the canonical path, waiting for it to be
/// made canonical once more before it is printed, or finished.
pub enum PwdStage {
    Resolving,
    Printing,
    Done,
}

/// A run of `pwd`.
pub struct Pwd {
    pub stage: PwdStage,
}

/// The path `pwd` makes canonical and prints: the working directory, with
/// or without `-p`; none when the working directory cannot be read, or when
/// `PWD` is unset and `-p` is not given (then the process stops).
pub open spec fn start_path(physical: bool, cwd: Result<Seq<char>, Seq<char>>, pwd: Option<Seq<char>>) -> Option<Seq<char>> {
    match cwd {
        Err(_) => None,
        Ok(c) => if physical || pwd is Some {
            Some(c)
        } else {
            None
        },
    }
}

/// The working directory in the environment of `pwd`.
pub open spec fn cwd_view(env: PwdEnv) -> Result<Seq<char>, Seq<char>> {
    match env.cwd {
        Ok(c) => Ok(c@),
        Err(e) => Err(e@),
    }
}

/// The value of `PWD` in the environment of `pwd`.
pub open spec fn pwd_view(env: PwdEnv) -> Option<Seq<char>> {
    match env.pwd {
        Some(p) => Some(p@),
        None => None,
    }
}

/// Starts `pwd` with its arguments (`-p` for the physical directory);
/// arguments that getopts refuses end `pwd` with -1.
pub fn function(shell: &mut Shell, arguments: Vec<String>, env: PwdEnv) -> (res: (Pwd, PwdAction))
    ensures
        known_outcome(views(arguments@), OptionDecl::BareFlag) matches Some(o) ==> parse_outcome(views(arguments@), OptionDecl::BareFlag) == o,
        final(shell)@ == old(shell)@,
        parse_outcome(views(arguments@), OptionDecl::BareFlag) is None ==> res.1@ == PwdActionView::Finish(-1i32)
            && res.0.stage is Done,
        parse_outcome(views(arguments@), OptionDecl::BareFlag) matches Some(p) ==> match start_path(p.present, cwd_view(env), pwd_view(env)) {
            Some(path) => res.1@ == PwdActionView::Canonicalize(path) && res.0.stage is Resolving,
            None => res.1@ == PwdActionView::Abort && res.0.stage is Done,
        },
{
    match parse_args(&arguments, OptionDecl::BareFlag) {
        None => (Pwd { stage: PwdStage::Done }, PwdAction::Finish(-1)),
        Some(parsed) => Pwd::begin(parsed, env),
    }
}

impl Pwd {
    /// Goes on from parsed arguments.
    pub fn begin(parsed: ParsedArgs, env: PwdEnv) -> (res: (Pwd, PwdAction))
        ensures
            match start_path(parsed.present, cwd_view(env), pwd_view(env)) {
                Some(path) => res.1@ == PwdActionView::Canonicalize(path) && res.0.stage is Resolving,
                None => res.1@ == PwdActionView::Abort && res.0.stage is Done,
            },
    {
        match env.cwd {
            Err(_) => (Pwd { stage: PwdStage::Done }, PwdAction::Abort),
            Ok(cwd) => {
                if parsed.present || env.pwd.is_some() {
                    (Pwd { stage: PwdStage::Resolving }, PwdAction::Canonicalize(cwd))
                } else {
                    (Pwd { stage: PwdStage::Done }, PwdAction::Abort)
                }
            },
        }
    }

    /// Goes on with the canonical path (or the text of the error that making
    /// it canonical gave). The first time, an error ends `pwd` with 1 after
    /// showing it, and a path is made canonical once more; the second time,
    /// the path is printed as a line and `pwd` ends with 0, while an error
    /// stops the process.
    pub fn canonicalized(&mut self, shell: &mut Shell, resolved: Result<String, String>) -> (res: PwdAction)
        requires
            old(self).stage is Resolving || old(self).stage is Printing,
        ensures
            old(self).stage is Resolving ==> match resolved {
                Ok(p) => res@ == PwdActionView::Canonicalize(p@) && final(self).stage is Printing
                    && final(shell)@ == old(shell)@,
                Err(e) => res@ == PwdActionView::Finish(1) && final(self).stage is Done
                    && final(shell)@ == (Streams { errors: old(shell)@.errors + encode_utf8(terminated(error_message(e@))), ..old(shell)@ }),
            },
            old(self).stage is Printing ==> match resolved {
                Ok(p) => res@ == PwdActionView::Finish(0) && final(self).stage is Done
                    && final(shell)@ == (Streams { output: old(shell)@.output + encode_utf8(terminated(p@)), ..old(shell)@ }),
                Err(_) => res@ == PwdActionView::Abort && final(self).stage is Done && final(shell)@ == old(shell)@,
            },
    {
        match self.stage {
            PwdStage::Printing => {
                self.stage = PwdStage::Done;
                match resolved {
                    Ok(p) => {
                        let _ = shell.writeln(p.as_str());
                        PwdAction::Finish(0)
                    },
                    Err(_) => PwdAction::Abort,
                }
            },
            _ => match resolved {
                Ok(p) => {
                    self.stage = PwdStage::Printing;
                    PwdAction::Canonicalize(p)
                },
                Err(e) => {
                    self.stage = PwdStage::Done;
                    let err = Error::from(e);
                    let msg = err.message();
                    let _ = shell.errln(msg.as_str());
                    PwdAction::Finish(1)
                },
            },
        }
    }
}

} // verus!
