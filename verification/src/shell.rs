//! The shell: its streams and builtins, and how a command line is executed.
use vstd::prelude::*;
use crate::builtin::{self, Builtin, builtins, builtin_table, table_view, table_lookup, named_builtin, resolve, resolve_alias};
use crate::error::Error;
use crate::ioface::{IoFace, Streams, terminated, first_line, after_first_line};
use crate::stringbuffer::StringBuffer;
use crate::text::{split_words, words, views, all_words, joined, lemma_words_shape, lemma_words_joined};
use vstd::utf8::encode_utf8;

verus! {

/// What executing a command line comes to: an exit code, when the command
/// was decided here; a builtin that needs the outside world (`cd`, `pwd`,
/// `source`) with its arguments; or an outside program with its arguments.
pub enum Dispatch {
    Exit(i32),
    Builtin(Builtin, Vec<String>),
    External(String, Vec<String>),
}

/// What executing a command line comes to, as a value of the specification.
pub enum DispatchView {
    Exit(i32),
    Builtin(Builtin, Seq<Seq<char>>),
    External(Seq<char>, Seq<Seq<char>>),
}

impl View for Dispatch {
    type V = DispatchView;

    open spec fn view(&self) -> DispatchView {
        match self {
            Dispatch::Exit(c) => DispatchView::Exit(*c),
            Dispatch::Builtin(b, args) => DispatchView::Builtin(*b, views(args@)),
            Dispatch::External(p, args) => DispatchView::External(p@, views(args@)),
        }
    }
}

/// What the words of a command line come to: no words do nothing
/// successfully; `eval` runs the rest of the words; `true` and `noop` exit
/// with 0 and `false` with 1; the other builtins are handed their arguments;
/// any other name is an outside program.
pub open spec fn run_words(ws: Seq<Seq<char>>) -> DispatchView
    decreases ws.len(),
{
    if ws.len() == 0 {
        DispatchView::Exit(0)
    } else {
        match named_builtin(ws[0]) {
            Some(Builtin::Eval) => run_words(ws.drop_first()),
            Some(Builtin::True) => DispatchView::Exit(0),
            Some(Builtin::Noop) => DispatchView::Exit(0),
            Some(Builtin::False) => DispatchView::Exit(1),
            Some(b) => DispatchView::Builtin(b, ws.drop_first()),
            None => DispatchView::External(ws[0], ws.drop_first()),
        }
    }
}

/// A shell: its streams and its table of builtins.
pub struct Shell {
    io: IoFace,
    builtins: Vec<(String, Builtin)>,
}

impl View for Shell {
    type V = Streams;

    closed spec fn view(&self) -> Streams {
        self.io@
    }
}

impl Shell {
    /// The table always holds the builtins.
    #[verifier::type_invariant]
    closed spec fn table_is_builtins(self) -> bool {
        table_view(self.builtins@) == builtin_table()
    }

    /// A shell over the given streams.
    pub fn new(stdin: StringBuffer, stdout: StringBuffer, stderr: StringBuffer) -> (res: Self)
        ensures
            res@ == (Streams { input: stdin@, output: encode_utf8(stdout@), errors: encode_utf8(stderr@) }),
    {
        Shell { io: IoFace::new(stdin, stdout, stderr), builtins: builtins() }
    }

    /// Moves the streams out, leaving empty ones in their place.
    fn take_io(&mut self) -> (res: IoFace)
        ensures
            res@ == old(self)@,
            final(self).builtins == old(self).builtins,
    {
        proof {
            use_type_invariant(&*self);
        }
        let mut io = IoFace::new(StringBuffer::new(), StringBuffer::new(), StringBuffer::new());
        std::mem::swap(&mut io, &mut self.io);
        io
    }

    /// Writes `content` to standard output as a line.
    pub fn writeln(&mut self, content: &str) -> (res: Result<(), Error>)
        ensures
            res is Ok,
            final(self)@ == (Streams { output: old(self)@.output + encode_utf8(terminated(content@)), ..old(self)@ }),
    {
        proof {
            use_type_invariant(&*self);
        }
        let mut io = self.take_io();
        let res = io.writeln(String::from_str(content));
        self.io = io;
        res
    }

    /// Writes `content` to standard error as a line.
    pub fn errln(&mut self, content: &str) -> (res: Result<(), Error>)
        ensures
            res is Ok,
            final(self)@ == (Streams { errors: old(self)@.errors + encode_utf8(terminated(content@)), ..old(self)@ }),
    {
        proof {
            use_type_invariant(&*self);
        }
        let mut io = self.take_io();
        let res = io.errln(String::from_str(content));
        self.io = io;
        res
    }

    /// Writes `buffer` to standard output, whatever bytes it holds.
    pub fn write_buf(&mut self, buffer: &[u8]) -> (res: Result<(), Error>)
        ensures
            res is Ok,
            final(self)@ == (Streams { output: old(self)@.output + buffer@, ..old(self)@ }),
    {
        proof {
            use_type_invariant(&*self);
        }
        let mut io = self.take_io();
        let res = io.write_buf(buffer);
        self.io = io;
        res
    }

    /// Writes `buffer` to standard error, whatever bytes it holds.
    pub fn err_buf(&mut self, buffer: &[u8]) -> (res: Result<(), Error>)
        ensures
            res is Ok,
            final(self)@ == (Streams { errors: old(self)@.errors + buffer@, ..old(self)@ }),
    {
        proof {
            use_type_invariant(&*self);
        }
        let mut io = self.take_io();
        let res = io.err_buf(buffer);
        self.io = io;
        res
    }

    /// Writes `sigil` to standard output (no line feed is added), then reads
    /// one line and gives it without leading and trailing whitespace; writing
    /// always succeeds, so the line is always read.
    pub fn prompt_sigil(&mut self, sigil: String) -> (res: Result<String, Error>)
        ensures
            res matches Ok(line) && line@ == crate::text::trimmed(first_line(old(self)@.input)),
            final(self)@ == (Streams {
                input: after_first_line(old(self)@.input),
                output: old(self)@.output + encode_utf8(sigil@),
                errors: old(self)@.errors,
            }),
    {
        proof {
            use_type_invariant(&*self);
        }
        let mut io = self.take_io();
        if let Err(e) = io.write(sigil) {
            self.io = io;
            return Err(e);
        }
        let line = io.read();
        self.io = io;
        line
    }

    /// Adds text to the input that is waiting to be read.
    pub fn supply(&mut self, text: &str)
        ensures
            final(self)@ == (Streams { input: old(self)@.input + text@, ..old(self)@ }),
    {
        proof {
            use_type_invariant(&*self);
        }
        let mut io = self.take_io();
        let res = io.supply(text);
        self.io = io;
        res
    }

    /// Hands out what was written to standard output and empties it.
    pub fn take_output(&mut self) -> (res: Vec<u8>)
        ensures
            res@ == old(self)@.output,
            final(self)@ == (Streams { output: Seq::empty(), ..old(self)@ }),
    {
        proof {
            use_type_invariant(&*self);
        }
        let mut io = self.take_io();
        let res = io.take_output();
        self.io = io;
        res
    }

    /// Hands out what was written to standard error and empties it.
    pub fn take_errors(&mut self) -> (res: Vec<u8>)
        ensures
            res@ == old(self)@.errors,
            final(self)@ == (Streams { errors: Seq::empty(), ..old(self)@ }),
    {
        proof {
            use_type_invariant(&*self);
        }
        let mut io = self.take_io();
        let res = io.take_errors();
        self.io = io;
        res
    }

    /// The builtin that a command name calls, aliases resolved.
    pub fn builtin(&mut self, name: &String) -> (res: Option<Builtin>)
        ensures
            res == named_builtin(name@),
            final(self)@ == old(self)@,
    {
        proof {
            use_type_invariant(&*self);
        }
        let key = resolve(name.as_str());
        let mut i: usize = 0;
        proof {
            assert(table_view(self.builtins@).skip(0) =~= table_view(self.builtins@));
        }
        while i < self.builtins.len()
            invariant
                i <= self.builtins.len(),
                table_view(self.builtins@) == builtin_table(),
                key@ == resolve_alias(name@),
                table_lookup(table_view(self.builtins@).skip(i as int), key@) == table_lookup(builtin_table(), key@),
            decreases self.builtins.len() - i,
        {
            proof {
                let t = table_view(self.builtins@).skip(i as int);
                assert(t[0] == (self.builtins@[i as int].0@, self.builtins@[i as int].1));
                assert(t.drop_first() =~= table_view(self.builtins@).skip(i + 1));
            }
            if self.builtins[i].0 == key {
                proof {
                    let t = table_view(self.builtins@).skip(i as int);
                    assert(t[0].0 == key@);
                    assert(table_lookup(t, key@) == Some(t[0].1));
                }
                return Some(self.builtins[i].1);
            }
            i = i + 1;
        }
        proof {
            assert(table_view(self.builtins@).skip(i as int) =~= Seq::<(Seq<char>, Builtin)>::empty());
        }
        None
    }

    /// Executes a command line: splits it into words and acts on the first
    /// word with the rest as its arguments; an empty line does nothing.
    pub fn exec(&mut self, input: &str) -> (res: Dispatch)
        ensures
            res@ == run_words(words(input@)),
            final(self)@ == old(self)@,
        decreases words(input@).len(), 2nat,
    {
        let parts = self.parse(input);
        match parts {
            None => Dispatch::Exit(0),
            Some((operand, arguments)) => {
                proof {
                    lemma_words_shape(input@);
                    assert(words(input@) =~= seq![operand@] + views(arguments@));
                    assert(views(arguments@) =~= words(input@).drop_first());
                }
                self.act(operand, arguments)
            },
        }
    }

    /// The first word of a command line and the rest, if it has any word.
    fn parse(&mut self, input: &str) -> (res: Option<(String, Vec<String>)>)
        ensures
            words(input@).len() == 0 <==> res is None,
            res matches Some(p) ==> seq![p.0@] + views(p.1@) == words(input@),
            final(self)@ == old(self)@,
    {
        let mut parts = split_words(input);
        if parts.len() < 1 {
            return None;
        }
        let ghost all = views(parts@);
        let first = parts.remove(0);
        proof {
            assert(seq![first@] + views(parts@) =~= all);
        }
        Some((first, parts))
    }

    /// Runs a command: a builtin if the name calls one, an outside program
    /// otherwise.
    fn act(&mut self, operand: String, arguments: Vec<String>) -> (res: Dispatch)
        requires
            all_words(views(arguments@)),
        ensures
            res@ == run_words(seq![operand@] + views(arguments@)),
            final(self)@ == old(self)@,
        decreases arguments@.len() + 1, 1nat,
    {
        let ghost ws = seq![operand@] + views(arguments@);
        proof {
            assert(ws[0] == operand@);
            assert(ws.drop_first() =~= views(arguments@));
        }
        match self.builtin(&operand) {
            Some(Builtin::Eval) => {
                proof {
                    lemma_words_joined(views(arguments@));
                }
                builtin::eval::function(self, arguments)
            },
            Some(Builtin::True) => Dispatch::Exit(builtin::succeed::function(self, arguments)),
            Some(Builtin::Noop) => Dispatch::Exit(builtin::noop::function(self, arguments)),
            Some(Builtin::False) => Dispatch::Exit(builtin::fail::function(self, arguments)),
            Some(b) => Dispatch::Builtin(b, arguments),
            None => Dispatch::External(operand, arguments),
        }
    }
}

} // verus!
