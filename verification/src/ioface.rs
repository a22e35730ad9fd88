//! The shell's three streams: text waiting to be read, and the bytes
//! written to standard output and to standard error.
use vstd::prelude::*;
use vstd::utf8::encode_utf8;
use crate::error::Error;
use crate::stringbuffer::StringBuffer;
use crate::text::{trim, trimmed};

verus! {

/// What the streams hold: the text waiting to be read, and the bytes
/// written to standard output and to standard error.
pub struct Streams {
    pub input: Seq<char>,
    pub output: Seq<u8>,
    pub errors: Seq<u8>,
}

/// The end of the first line of `s` that starts at or after `k`: just after
/// its line feed, or the end of `s`.
pub open spec fn line_end(s: Seq<char>, k: int) -> int
    decreases s.len() - k,
{
    if k >= s.len() {
        s.len() as int
    } else if s[k] == '\n' {
        k + 1
    } else {
        line_end(s, k + 1)
    }
}

/// The first line of `s`, with its line feed if it has one.
pub open spec fn first_line(s: Seq<char>) -> Seq<char> {
    s.take(line_end(s, 0))
}

/// What is left of `s` after its first line.
pub open spec fn after_first_line(s: Seq<char>) -> Seq<char> {
    s.skip(line_end(s, 0))
}

/// `s` ends with a line feed.
pub open spec fn ends_with_newline(s: Seq<char>) -> bool {
    s.len() > 0 && s.last() == '\n'
}

/// `s`, with a line feed added unless it already ends with one.
pub open spec fn terminated(s: Seq<char>) -> Seq<char> {
    if ends_with_newline(s) {
        s
    } else {
        s.push('\n')
    }
}

/// Tests whether `s` ends with a line feed.
pub fn text_ends_with_newline(s: &str) -> (res: bool)
    ensures
        res == ends_with_newline(s@),
{
    let n = s.unicode_len();
    n > 0 && s.get_char(n - 1) == '\n'
}

/// Adds a line feed to `content` unless it already ends with one.
pub fn terminate(content: String) -> (res: String)
    ensures
        res@ == terminated(content@),
{
    let mut content = content;
    if !text_ends_with_newline(content.as_str()) {
        let nl = "\n";
        proof {
            reveal_strlit("\n");
            assert(nl@ =~= seq!['\n']);
        }
        content.append(nl);
    }
    content
}

/// Appends `bytes` to `v`.
pub fn push_bytes(v: &mut Vec<u8>, bytes: &[u8])
    ensures
        final(v)@ == old(v)@ + bytes@,
{
    let mut i: usize = 0;
    while i < bytes.len()
        invariant
            i <= bytes@.len(),
            v@ == old(v)@ + bytes@.take(i as int),
        decreases bytes.len() - i,
    {
        v.push(bytes[i]);
        proof {
            assert(bytes@.take(i + 1) =~= bytes@.take(i as int).push(bytes@[i as int]));
        }
        i = i + 1;
    }
    proof {
        assert(bytes@.take(bytes@.len() as int) =~= bytes@);
    }
}

/// The UTF-8 bytes of the text in `b`.
fn buffer_bytes(b: StringBuffer) -> (res: Vec<u8>)
    ensures
        res@ == encode_utf8(b@),
{
    let text = b.into_string();
    let mut res: Vec<u8> = Vec::new();
    push_bytes(&mut res, text.as_str().as_bytes());
    res
}

/// The shell's standard input, output and error.
pub struct IoFace {
    stdin: String,
    stdout: Vec<u8>,
    stderr: Vec<u8>,
}

impl View for IoFace {
    type V = Streams;

    closed spec fn view(&self) -> Streams {
        Streams { input: self.stdin@, output: self.stdout@, errors: self.stderr@ }
    }
}

impl IoFace {
    /// Streams over the given buffers: the text of `stdin` is what will be
    /// read; the bytes of `stdout` and `stderr` are followed by what is
    /// written.
    pub fn new(stdin: StringBuffer, stdout: StringBuffer, stderr: StringBuffer) -> (res: Self)
        ensures
            res@ == (Streams { input: stdin@, output: encode_utf8(stdout@), errors: encode_utf8(stderr@) }),
    {
        IoFace { stdin: stdin.into_string(), stdout: buffer_bytes(stdout), stderr: buffer_bytes(stderr) }
    }

    /// Adds text to the input that is waiting to be read.
    pub fn supply(&mut self, text: &str)
        ensures
            final(self)@ == (Streams { input: old(self)@.input + text@, ..old(self)@ }),
    {
        self.stdin.append(text);
    }

    /// Hands out what was written to standard output and empties it.
    pub fn take_output(&mut self) -> (res: Vec<u8>)
        ensures
            res@ == old(self)@.output,
            final(self)@ == (Streams { output: Seq::empty(), ..old(self)@ }),
    {
        let mut out: Vec<u8> = Vec::new();
        std::mem::swap(&mut out, &mut self.stdout);
        out
    }

    /// Hands out what was written to standard error and empties it.
    pub fn take_errors(&mut self) -> (res: Vec<u8>)
        ensures
            res@ == old(self)@.errors,
            final(self)@ == (Streams { errors: Seq::empty(), ..old(self)@ }),
    {
        let mut err: Vec<u8> = Vec::new();
        std::mem::swap(&mut err, &mut self.stderr);
        err
    }

    /// Reads one line (with its line feed, if it has one) from the input and
    /// appends it to `buffer`; at the end of the input nothing is appended.
    pub fn read_buf(&mut self, buffer: &mut String) -> (res: Result<(), Error>)
        ensures
            res is Ok,
            final(buffer)@ == old(buffer)@ + first_line(old(self)@.input),
            final(self)@ == (Streams { input: after_first_line(old(self)@.input), ..old(self)@ }),
    {
        let s = self.stdin.as_str();
        let n = s.unicode_len();
        let mut k: usize = 0;
        while k < n && s.get_char(k) != '\n'
            invariant
                n == s@.len(),
                k <= n,
                line_end(s@, k as int) == line_end(s@, 0),
            decreases n - k,
        {
            k = k + 1;
        }
        let e: usize = if k < n { k + 1 } else { n };
        proof {
            assert(line_end(s@, 0) == e);
        }
        let line = String::from_str(s.substring_char(0, e));
        let rest = String::from_str(s.substring_char(e, n));
        buffer.append(line.as_str());
        proof {
            assert(rest@ =~= after_first_line(s@));
            assert(line@ =~= first_line(s@));
        }
        self.stdin = rest;
        Ok(())
    }

    /// Reads one line and gives it without leading and trailing whitespace.
    pub fn read(&mut self) -> (res: Result<String, Error>)
        ensures
            res matches Ok(line) && line@ == trimmed(first_line(old(self)@.input)),
            final(self)@ == (Streams { input: after_first_line(old(self)@.input), ..old(self)@ }),
    {
        let mut buffer = String::new();
        self.read_buf(&mut buffer)?;
        proof {
            assert(buffer@ =~= first_line(old(self)@.input));
        }
        Ok(trim(buffer.as_str()))
    }

    /// Writes `buffer` to standard output, whatever bytes it holds.
    pub fn write_buf(&mut self, buffer: &[u8]) -> (res: Result<(), Error>)
        ensures
            res is Ok,
            final(self)@ == (Streams { output: old(self)@.output + buffer@, ..old(self)@ }),
    {
        push_bytes(&mut self.stdout, buffer);
        Ok(())
    }

    /// Writes `content` to standard output, encoded as UTF-8.
    pub fn write(&mut self, content: String) -> (res: Result<(), Error>)
        ensures
            res is Ok,
            final(self)@ == (Streams { output: old(self)@.output + encode_utf8(content@), ..old(self)@ }),
    {
        self.write_buf(content.as_str().as_bytes())
    }

    /// Writes `content` to standard output as a line: a line feed is added
    /// unless it already ends with one.
    pub fn writeln(&mut self, content: String) -> (res: Result<(), Error>)
        ensures
            res is Ok,
            final(self)@ == (Streams { output: old(self)@.output + encode_utf8(terminated(content@)), ..old(self)@ }),
    {
        let content = terminate(content);
        self.write(content)
    }

    /// Writes `buffer` to standard error, whatever bytes it holds.
    pub fn err_buf(&mut self, buffer: &[u8]) -> (res: Result<(), Error>)
        ensures
            res is Ok,
            final(self)@ == (Streams { errors: old(self)@.errors + buffer@, ..old(self)@ }),
    {
        push_bytes(&mut self.stderr, buffer);
        Ok(())
    }

    /// Writes `content` to standard error, encoded as UTF-8.
    pub fn err(&mut self, content: String) -> (res: Result<(), Error>)
        ensures
            res is Ok,
            final(self)@ == (Streams { errors: old(self)@.errors + encode_utf8(content@), ..old(self)@ }),
    {
        self.err_buf(content.as_str().as_bytes())
    }

    /// Writes `content` to standard error as a line.
    pub fn errln(&mut self, content: String) -> (res: Result<(), Error>)
        ensures
            res is Ok,
            final(self)@ == (Streams { errors: old(self)@.errors + encode_utf8(terminated(content@)), ..old(self)@ }),
    {
        let content = terminate(content);
        self.err(content)
    }
}

} // verus!
