//! The interactive session around the shell: when it ends, and how it
//! reports the signals it receives.
use vstd::prelude::*;

verus! {

/// The signals that the session reports.
#[derive(Clone, Copy, PartialEq, Eq, Structural, Debug)]
pub enum Signal {
    Interrupt,
    Quit,
    Stop,
    Other,
}

/// The name under which a signal is reported.
pub open spec fn signal_label(s: Signal) -> Seq<char> {
    match s {
        Signal::Interrupt => "CANCEL"@,
        Signal::Quit => "DISCONNECT"@,
        Signal::Stop => "FORCE STOP"@,
        Signal::Other => "unknown"@,
    }
}

/// The line that reports a signal: `signal ` and its name.
pub fn signal_message(s: Signal) -> (res: String)
    ensures
        res@ == "signal "@ + signal_label(s),
{
    let name = match s {
        Signal::Interrupt => "CANCEL",
        Signal::Quit => "DISCONNECT",
        Signal::Stop => "FORCE STOP",
        Signal::Other => "unknown",
    };
    let mut res = String::from_str("signal ");
    res.append(name);
    res
}

/// The exit code with which a command asks the session to end.
pub open spec fn exit_request() -> i32 {
    -255i32
}

/// Whether a command's exit code ends the session.
pub fn is_exit_request(code: i32) -> (res: bool)
    ensures
        res == (code == exit_request()),
{
    code == -255
}

} // verus!
