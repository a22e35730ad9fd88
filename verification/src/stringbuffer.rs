//! An in-memory text stream: writes append to it, reads copy it out.
use vstd::prelude::*;
use vstd::utf8::{valid_utf8, decode_utf8, encode_utf8};
use crate::error::Error;

verus! {

/// The detail of the error that writing bytes that are not UTF-8 gives.
pub open spec fn not_utf8_details() -> Seq<char> {
    "stream did not contain valid UTF-8"@
}

/// `std::str::from_utf8`, which gives the text that `bytes` encode when they
/// are valid UTF-8 and fails otherwise; the text is copied into a `String`.
#[verifier::external_body]
fn utf8_text(bytes: &[u8]) -> (res: Option<String>)
    ensures
        res is Some <==> valid_utf8(bytes@),
        res matches Some(s) ==> s@ == decode_utf8(bytes@),
{
    std::str::from_utf8(bytes).ok().map(|s| s.to_string())
}

/// The error for bytes that are not UTF-8.
pub fn not_utf8_error() -> (res: Error)
    ensures
        res@ == not_utf8_details(),
{
    let details = "stream did not contain valid UTF-8";
    proof {
        reveal_strlit("stream did not contain valid UTF-8");
    }
    Error::from(details)
}

/// A text buffer that can be written to and read from.
pub struct StringBuffer {
    content: String,
}

impl View for StringBuffer {
    type V = Seq<char>;

    closed spec fn view(&self) -> Seq<char> {
        self.content@
    }
}

impl StringBuffer {
    /// An empty buffer.
    pub fn new() -> (res: Self)
        ensures
            res@ == Seq::<char>::empty(),
    {
        StringBuffer { content: String::new() }
    }

    /// Copies the start of the buffer's bytes into `buf`, as many as fit;
    /// the buffer keeps its content.
    pub fn read(&mut self, buf: &mut [u8]) -> (res: Result<usize, Error>)
        ensures
            final(self)@ == old(self)@,
            res matches Ok(n) && n as int == min_len(old(buf)@.len() as int, encode_utf8(old(self)@).len() as int),
            final(buf)@ == encode_utf8(old(self)@).take(res->Ok_0 as int) + old(buf)@.skip(res->Ok_0 as int),
    {
        let bytes = self.content.as_str().as_bytes();
        let n: usize = if buf.len() < bytes.len() { buf.len() } else { bytes.len() };
        let mut i: usize = 0;
        while i < n
            invariant
                n <= buf@.len(),
                n <= bytes@.len(),
                i <= n,
                bytes@ == encode_utf8(self@),
                buf@.len() == old(buf)@.len(),
                buf@ == bytes@.take(i as int) + old(buf)@.skip(i as int),
            decreases n - i,
        {
            buf[i] = bytes[i];
            proof {
                assert(buf@ =~= bytes@.take(i + 1) + old(buf)@.skip(i + 1));
            }
            i = i + 1;
        }
        Ok(n)
    }

    /// Appends the text that `buf` encodes; bytes that are not UTF-8 are
    /// refused and nothing is appended.
    pub fn write(&mut self, buf: &[u8]) -> (res: Result<usize, Error>)
        ensures
            valid_utf8(buf@) ==> res == Ok::<usize, Error>(buf@.len() as usize) && final(self)@ == old(self)@ + decode_utf8(buf@),
            !valid_utf8(buf@) ==> (res matches Err(e) && e@ == not_utf8_details() && final(self)@ == old(self)@),
    {
        match utf8_text(buf) {
            Some(text) => {
                self.content.append(text.as_str());
                Ok(buf.len())
            },
            None => Err(not_utf8_error()),
        }
    }

    /// Nothing is held back, so flushing always succeeds.
    pub fn flush(&mut self) -> (res: Result<(), Error>)
        ensures
            res is Ok,
            final(self)@ == old(self)@,
    {
        Ok(())
    }

    /// The text in the buffer.
    pub fn into_string(self) -> (res: String)
        ensures
            res@ == self@,
    {
        self.content
    }
}

/// The smaller of two integers.
pub open spec fn min_len(a: int, b: int) -> int {
    if a < b { a } else { b }
}

} // verus!
