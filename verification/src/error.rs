//! The shell's error type: a message that is shown as `Error: <details>`.
use vstd::prelude::*;
use vstd::std_specs::convert::FromSpecImpl;

verus! {

/// An owned error text, convertible into an [`Error`].
pub struct EString(pub String);

/// An error of the shell, carrying its details.
#[derive(Debug)]
pub struct Error {
    details: String,
}

impl View for Error {
    type V = Seq<char>;

    /// The details of the error.
    closed spec fn view(&self) -> Seq<char> {
        self.details@
    }
}

impl Error {
    /// The details of the error.
    pub fn details(&self) -> (res: &str)
        ensures
            res@ == self@,
    {
        self.details.as_str()
    }

    /// The text that shows the error: `Error: ` followed by the details.
    pub fn message(&self) -> (res: String)
        ensures
            res@ == error_message(self@),
    {
        let prefix = "Error: ";
        proof {
            reveal_strlit("Error: ");
        }
        let mut res = String::from_str(prefix);
        res.append(self.details.as_str());
        res
    }
}

/// How an error with the given details is shown.
pub open spec fn error_message(details: Seq<char>) -> Seq<char> {
    "Error: "@ + details
}

impl From<String> for EString {
    fn from(value: String) -> (res: Self) {
        EString(value)
    }
}

impl FromSpecImpl<String> for EString {
    open spec fn obeys_from_spec() -> bool {
        true
    }

    open spec fn from_spec(v: String) -> Self {
        EString(v)
    }
}

impl From<&str> for EString {
    fn from(value: &str) -> (res: Self)
        ensures
            res.0@ == value@,
    {
        EString(String::from_str(value))
    }
}

impl FromSpecImpl<&str> for EString {
    open spec fn obeys_from_spec() -> bool {
        false
    }

    open spec fn from_spec(v: &str) -> Self {
        arbitrary()
    }
}

impl From<EString> for Error {
    fn from(err: EString) -> (res: Self)
        ensures
            res@ == err.0@,
    {
        Error { details: err.0 }
    }
}

impl FromSpecImpl<EString> for Error {
    open spec fn obeys_from_spec() -> bool {
        true
    }

    closed spec fn from_spec(v: EString) -> Self {
        Error { details: v.0 }
    }
}

impl From<String> for Error {
    fn from(err: String) -> (res: Self)
        ensures
            res@ == err@,
    {
        Error { details: err }
    }
}

impl FromSpecImpl<String> for Error {
    open spec fn obeys_from_spec() -> bool {
        true
    }

    closed spec fn from_spec(v: String) -> Self {
        Error { details: v }
    }
}

impl From<&str> for Error {
    fn from(err: &str) -> (res: Self)
        ensures
            res@ == err@,
    {
        Error { details: String::from_str(err) }
    }
}

impl FromSpecImpl<&str> for Error {
    open spec fn obeys_from_spec() -> bool {
        false
    }

    closed spec fn from_spec(v: &str) -> Self {
        arbitrary()
    }
}

} // verus!
