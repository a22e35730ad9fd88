//! `source [-p dirs] file` (alias `.`): runs a script's lines until one fails.
use vstd::prelude::*;
use vstd::utf8::encode_utf8;
use crate::builtin::cd::{first_true, first_found, clone_all};
use crate::environment::{kept, path};
use crate::ioface::{Streams, terminated};
use crate::options::{known_outcome, OptionDecl, ParsedArgs, parse_args, parse_outcome};
use crate::path::{pushed, path_join};
use crate::shell::Shell;
use crate::text::{views, pieces, split_pieces, lines, split_lines};

verus! {

/// What `source` reads of its environment: the variable `PATH` (none when
/// unset or not text) and the working directory (or the text of the error
/// reading it gave).
pub struct SourceEnv {
    pub path: Option<String>,
    pub cwd: Result<String, String>,
}

/// What the caller is asked to do next.
pub enum SourceAction {
    /// Find out which of these places exist and are directories; hand back
    /// one answer for each, in order.
    CheckDirs(Vec<String>),
    /// Find out which of these places are files; hand back one answer for
    /// each, in order.
    CheckFiles(Vec<String>),
    /// Read this file as text and hand back its content (what could be read).
    ReadScript(String),
    /// Execute this line with the shell and hand back its exit code.
    RunLine(String),
    /// Stop the process: a value that `source` needs is missing.
    Abort,
    /// `source` is done, with this exit code.
    Finish(i32),
}

/// What the caller is asked to do next, as a value of the specification.
pub enum SourceActionView {
    CheckDirs(Seq<Seq<char>>),
    CheckFiles(Seq<Seq<char>>),
    ReadScript(Seq<char>),
    RunLine(Seq<char>),
    Abort,
    Finish(i32),
}

impl View for SourceAction {
    type V = SourceActionView;

    open spec fn view(&self) -> SourceActionView {
        match self {
            SourceAction::CheckDirs(v) => SourceActionView::CheckDirs(views(v@)),
            SourceAction::CheckFiles(v) => SourceActionView::CheckFiles(views(v@)),
            SourceAction::ReadScript(p) => SourceActionView::ReadScript(p@),
            SourceAction::RunLine(l) => SourceActionView::RunLine(l@),
            SourceAction::Abort => SourceActionView::Abort,
            SourceAction::Finish(c) => SourceActionView::Finish(*c),
        }
    }
}

enum Stage {
    Filtering(Vec<String>, String, String),
    Finding(Vec<String>),
    Confirming(String),
    Reading,
    Running(Vec<String>, usize),
    Done,
}

/// Where `source` stands.
pub enum SourceStageView {
    /// Waiting to learn which `PATH` entries are directories; then the
    /// working directory is searched after them for the file name.
    Filtering(Seq<Seq<char>>, Seq<char>, Seq<char>),
    /// Waiting to learn which candidates are files.
    Finding(Seq<Seq<char>>),
    /// Waiting to learn whether the chosen file is still a file.
    Confirming(Seq<char>),
    /// Waiting for the script's text.
    Reading,
    /// Running the lines; the given line is the one running.
    Running(Seq<Seq<char>>, int),
    /// Finished.
    Done,
}

/// A run of `source`.
pub struct Source {
    stage: Stage,
}

impl View for Source {
    type V = SourceStageView;

    closed spec fn view(&self) -> SourceStageView {
        match self.stage {
            Stage::Filtering(e, c, f) => SourceStageView::Filtering(views(e@), c@, f@),
            Stage::Finding(c) => SourceStageView::Finding(views(c@)),
            Stage::Confirming(p) => SourceStageView::Confirming(p@),
            Stage::Reading => SourceStageView::Reading,
            Stage::Running(l, k) => SourceStageView::Running(views(l@), k as int),
            Stage::Done => SourceStageView::Done,
        }
    }
}

/// The places where the script is looked for: each directory joined with its name.
pub open spec fn script_candidates(dirs: Seq<Seq<char>>, name: Seq<char>) -> Seq<Seq<char>> {
    dirs.map_values(|d: Seq<char>| pushed(d, name))
}

/// The message when no file name is given.
pub open spec fn no_filename_message() -> Seq<char> {
    "no filename provided"@
}

/// The message when the script is not found.
pub open spec fn not_found_message() -> Seq<char> {
    "script not found"@
}

/// The step after a line of the script ran with exit code `code`: the
/// next line runs when this one succeeded and there is one; otherwise
/// `source` is done and ends with 0.
pub open spec fn line_step(stage: SourceStageView, code: i32) -> (SourceStageView, SourceActionView) {
    match stage {
        SourceStageView::Running(ls, k) => if code == 0 && k + 1 < ls.len() {
            (SourceStageView::Running(ls, k + 1), SourceActionView::RunLine(ls[k + 1]))
        } else {
            (SourceStageView::Done, SourceActionView::Finish(0))
        },
        _ => (SourceStageView::Done, SourceActionView::Finish(0)),
    }
}

/// How `source` starts from parsed arguments: without a file name it
/// fails with -1; without `PATH` or a working directory it stops the
/// process; with `-p` it looks in the directories of the option's value
/// (pieces between `:`), otherwise in the `PATH` entries that are
/// directories and then the working directory.
pub open spec fn begin_step(p: crate::options::ParsedView, path_var: Option<Seq<char>>, cwd: Result<Seq<char>, Seq<char>>) -> (SourceStageView, SourceActionView, Seq<u8>) {
    if p.free.len() < 1 {
        (SourceStageView::Done, SourceActionView::Finish(-1i32), encode_utf8(terminated(no_filename_message())))
    } else if path_var is None || cwd is Err {
        (SourceStageView::Done, SourceActionView::Abort, Seq::empty())
    } else if p.present {
        match p.value {
            Some(v) => {
                let c = script_candidates(pieces(v, ':'), p.free[0]);
                (SourceStageView::Finding(c), SourceActionView::CheckFiles(c), Seq::empty())
            },
            None => (SourceStageView::Done, SourceActionView::Abort, Seq::empty()),
        }
    } else {
        let entries = pieces(path_var.unwrap(), ':');
        (SourceStageView::Filtering(entries, cwd->Ok_0, p.free[0]), SourceActionView::CheckDirs(entries), Seq::empty())
    }
}

/// The places where the script is looked for.
pub fn candidates_in(dirs: &Vec<String>, name: &str) -> (res: Vec<String>)
    ensures
        views(res@) == script_candidates(views(dirs@), name@),
{
    let mut res: Vec<String> = Vec::new();
    let mut i: usize = 0;
    while i < dirs.len()
        invariant
            i <= dirs.len(),
            views(res@) == script_candidates(views(dirs@).take(i as int), name@),
        decreases dirs.len() - i,
    {
        let ghost before = res@;
        let c = path_join(dirs[i].as_str(), name);
        res.push(c);
        proof {
            assert(views(res@) =~= views(before).push(pushed(dirs@[i as int]@, name@)));
            assert(views(dirs@).take(i + 1) =~= views(dirs@).take(i as int).push(dirs@[i as int]@));
            assert(script_candidates(views(dirs@).take(i + 1), name@) =~= script_candidates(
                views(dirs@).take(i as int),
                name@,
            ).push(pushed(dirs@[i as int]@, name@)));
        }
        i = i + 1;
    }
    proof {
        assert(views(dirs@).take(dirs.len() as int) =~= views(dirs@));
    }
    res
}

/// Writes `message` as a line to standard error.
fn complain(shell: &mut Shell, message: &str)
    ensures
        final(shell)@ == (Streams { errors: old(shell)@.errors + encode_utf8(terminated(message@)), ..old(shell)@ }),
{
    let _ = shell.errln(message);
}

/// Starts `source` with its arguments (`-p dirs` for the directories to
/// search); arguments that getopts refuses end it with -1.
pub fn function(shell: &mut Shell, arguments: Vec<String>, env: SourceEnv) -> (res: (Source, SourceAction))
    ensures
        known_outcome(views(arguments@), OptionDecl::SearchPath) matches Some(o) ==> parse_outcome(views(arguments@), OptionDecl::SearchPath) == o,
        parse_outcome(views(arguments@), OptionDecl::SearchPath) is None ==> res.1@ == SourceActionView::Finish(-1i32)
            && res.0@ == SourceStageView::Done && final(shell)@ == old(shell)@,
        parse_outcome(views(arguments@), OptionDecl::SearchPath) matches Some(p) ==> {
            let step = begin_step(p, crate::builtin::cd::opt_view(env.path), match env.cwd { Ok(c) => Ok(c@), Err(e) => Err(e@) });
            &&& res.0@ == step.0
            &&& res.1@ == step.1
            &&& final(shell)@ == (Streams { errors: old(shell)@.errors + step.2, ..old(shell)@ })
        },
{
    match parse_args(&arguments, OptionDecl::SearchPath) {
        None => (Source { stage: Stage::Done }, SourceAction::Finish(-1)),
        Some(parsed) => Source::begin(shell, parsed, env),
    }
}

impl Source {
    /// Goes on from parsed arguments.
    pub fn begin(shell: &mut Shell, parsed: ParsedArgs, env: SourceEnv) -> (res: (Source, SourceAction))
        ensures
            ({
                let step = begin_step(parsed@, crate::builtin::cd::opt_view(env.path), match env.cwd { Ok(c) => Ok(c@), Err(e) => Err(e@) });
                &&& res.0@ == step.0
                &&& res.1@ == step.1
                &&& final(shell)@ == (Streams { errors: old(shell)@.errors + step.2, ..old(shell)@ })
            }),
    {
        if parsed.free.len() < 1 {
            proof {
                reveal_strlit("no filename provided");
            }
            complain(shell, "no filename provided");
            return (Source { stage: Stage::Done }, SourceAction::Finish(-1));
        }
        let filename = parsed.free[0].clone();
        let path_var = match env.path {
            Some(p) => p,
            None => return (Source { stage: Stage::Done }, SourceAction::Abort),
        };
        let cwd = match env.cwd {
            Ok(c) => c,
            Err(_) => return (Source { stage: Stage::Done }, SourceAction::Abort),
        };
        if parsed.present {
            match parsed.value {
                Some(v) => {
                    let dirs = split_pieces(v.as_str(), ':');
                    let cands = candidates_in(&dirs, filename.as_str());
                    let shown = clone_all(&cands);
                    (Source { stage: Stage::Finding(cands) }, SourceAction::CheckFiles(shown))
                },
                None => (Source { stage: Stage::Done }, SourceAction::Abort),
            }
        } else {
            let entries = split_pieces(path_var.as_str(), ':');
            let shown = clone_all(&entries);
            (Source { stage: Stage::Filtering(entries, cwd, filename) }, SourceAction::CheckDirs(shown))
        }
    }

    /// Goes on with which `PATH` entries are directories: the script is
    /// looked for in those, then in the working directory.
    pub fn dirs_checked(&mut self, found: Vec<bool>) -> (res: SourceAction)
        requires
            old(self)@ matches SourceStageView::Filtering(e, _, _) && found@.len() == e.len(),
        ensures
            old(self)@ matches SourceStageView::Filtering(e, c, f) ==> {
                let cands = script_candidates(kept(e, found@).push(c), f);
                &&& final(self)@ == SourceStageView::Finding(cands)
                &&& res@ == SourceActionView::CheckFiles(cands)
            },
    {
        let mut stage = Stage::Done;
        std::mem::swap(&mut stage, &mut self.stage);
        match stage {
            Stage::Filtering(entries, cwd, filename) => {
                let mut dirs = path(&entries, &found);
                let ghost before = dirs@;
                dirs.push(cwd);
                proof {
                    assert(views(dirs@) =~= views(before).push(dirs@.last()@));
                }
                let cands = candidates_in(&dirs, filename.as_str());
                let shown = clone_all(&cands);
                self.stage = Stage::Finding(cands);
                SourceAction::CheckFiles(shown)
            },
            _ => SourceAction::Finish(-1),
        }
    }

    /// Goes on with which places are files: among candidates, the first file
    /// is checked once more, and none ends `source` with -1 after saying so;
    /// for the chosen file, it is read if it is still a file.
    pub fn files_checked(&mut self, shell: &mut Shell, found: Vec<bool>) -> (res: SourceAction)
        requires
            old(self)@ is Finding || old(self)@ is Confirming,
            old(self)@ matches SourceStageView::Finding(c) ==> found@.len() == c.len(),
            old(self)@ matches SourceStageView::Confirming(_) ==> found@.len() == 1,
        ensures
            old(self)@ matches SourceStageView::Finding(c) ==> match first_true(found@) {
                Some(i) => final(self)@ == SourceStageView::Confirming(c[i])
                    && res@ == SourceActionView::CheckFiles(seq![c[i]]) && final(shell)@ == old(shell)@,
                None => final(self)@ == SourceStageView::Done && res@ == SourceActionView::Finish(-1i32)
                    && final(shell)@ == (Streams { errors: old(shell)@.errors + encode_utf8(terminated(not_found_message())), ..old(shell)@ }),
            },
            old(self)@ matches SourceStageView::Confirming(p) ==> if found@[0] {
                final(self)@ == SourceStageView::Reading && res@ == SourceActionView::ReadScript(p)
                    && final(shell)@ == old(shell)@
            } else {
                final(self)@ == SourceStageView::Done && res@ == SourceActionView::Finish(-1i32)
                    && final(shell)@ == (Streams { errors: old(shell)@.errors + encode_utf8(terminated(not_found_message())), ..old(shell)@ })
            },
    {
        proof {
            reveal_strlit("script not found");
        }
        let mut stage = Stage::Done;
        std::mem::swap(&mut stage, &mut self.stage);
        match stage {
            Stage::Finding(cands) => {
                let pick = first_found(&found);
                proof {
                    crate::builtin::cd::lemma_first_true_bounds(found@);
                }
                match pick {
                    Some(i) => {
                        let chosen = cands[i].clone();
                        let mut ask: Vec<String> = Vec::new();
                        ask.push(chosen.clone());
                        proof {
                            assert(views(ask@) =~= seq![chosen@]);
                        }
                        self.stage = Stage::Confirming(chosen);
                        SourceAction::CheckFiles(ask)
                    },
                    None => {
                        complain(shell, "script not found");
                        SourceAction::Finish(-1)
                    },
                }
            },
            Stage::Confirming(p) => {
                if found[0] {
                    self.stage = Stage::Reading;
                    SourceAction::ReadScript(p)
                } else {
                    complain(shell, "script not found");
                    SourceAction::Finish(-1)
                }
            },
            _ => SourceAction::Finish(-1),
        }
    }

    /// Goes on with the script's text: its lines are run in order; a script
    /// without lines ends `source` with 0.
    pub fn script_read(&mut self, content: String) -> (res: SourceAction)
        requires
            old(self)@ is Reading,
        ensures
            lines(content@).len() == 0 ==> final(self)@ == SourceStageView::Done && res@ == SourceActionView::Finish(0),
            lines(content@).len() > 0 ==> final(self)@ == SourceStageView::Running(lines(content@), 0)
                && res@ == SourceActionView::RunLine(lines(content@)[0]),
    {
        let ls = split_lines(content.as_str());
        if ls.len() == 0 {
            self.stage = Stage::Done;
            SourceAction::Finish(0)
        } else {
            let first = ls[0].clone();
            self.stage = Stage::Running(ls, 0);
            SourceAction::RunLine(first)
        }
    }

    /// Goes on with the exit code of the line that ran: a failing line
    /// (any code but 0) stops the script; otherwise the next line runs.
    /// `source` ends with 0 either way.
    pub fn line_done(&mut self, code: i32) -> (res: SourceAction)
        requires
            old(self)@ matches SourceStageView::Running(ls, k) && 0 <= k < ls.len(),
        ensures
            (final(self)@, res@) == line_step(old(self)@, code),
    {
        let mut stage = Stage::Done;
        std::mem::swap(&mut stage, &mut self.stage);
        match stage {
            Stage::Running(ls, k) => {
                proof {
                    assert(views(ls@).len() == ls@.len());
                    assert(old(self)@ == SourceStageView::Running(views(ls@), k as int));
                    assert(k < ls.len());
                }
                if code == 0 && k + 1 < ls.len() {
                    let next = ls[k + 1].clone();
                    self.stage = Stage::Running(ls, k + 1);
                    SourceAction::RunLine(next)
                } else {
                    SourceAction::Finish(0)
                }
            },
            _ => SourceAction::Finish(0),
        }
    }
}

} // verus!
