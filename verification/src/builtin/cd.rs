//! `cd [-p] [dir...]`: changes the working directory.
//!
//! The decisions are made here; the outside world (the file system, the
//! process's working directory and environment) is asked through actions
//! that the caller performs, handing back what it found.
use vstd::prelude::*;
use vstd::utf8::encode_utf8;
use crate::error::{Error, error_message};
use crate::ioface::{Streams, terminated};
use crate::options::{known_outcome, OptionDecl, ParsedArgs, ParsedView, parse_args, parse_outcome};
use crate::path::{parts, pushed, path_join, components, lexical_plan, lexical_walk, walk_end};
use crate::shell::Shell;
use crate::text::{views, joined, join_words, pieces, split_pieces};

verus! {

/// What `cd` reads of its environment: the home directory, the variables
/// `OLDPWD`, `CDPATH` and `PWD` (none when unset or not text), and the
/// working directory (or the error reading it gave).
pub struct CdEnv {
    pub home: Option<String>,
    pub oldpwd: Option<String>,
    pub cdpath: Option<String>,
    pub pwd: Option<String>,
    pub cwd: Result<String, String>,
}

/// The text of an optional string.
pub open spec fn opt_view(o: Option<String>) -> Option<Seq<char>> {
    match o {
        Some(s) => Some(s@),
        None => None,
    }
}

/// What `cd` reads of its environment, as values of the specification.
pub struct CdEnvView {
    pub home: Option<Seq<char>>,
    pub oldpwd: Option<Seq<char>>,
    pub cdpath: Option<Seq<char>>,
    pub pwd: Option<Seq<char>>,
    pub cwd: Result<Seq<char>, Seq<char>>,
}

impl View for CdEnv {
    type V = CdEnvView;

    open spec fn view(&self) -> CdEnvView {
        CdEnvView {
            home: opt_view(self.home),
            oldpwd: opt_view(self.oldpwd),
            cdpath: opt_view(self.cdpath),
            pwd: opt_view(self.pwd),
            cwd: match self.cwd {
                Ok(c) => Ok(c@),
                Err(e) => Err(e@),
            },
        }
    }
}

/// Where the arguments point, before any directory is looked at.
pub enum TargetView {
    /// No argument and no home directory.
    NoHome,
    /// A place to go to as it is.
    Direct(Seq<char>),
    /// A path to resolve.
    Resolve(Seq<char>),
    /// Candidate directories along `CDPATH`, the first that is a directory
    /// to be resolved, else the default path.
    Search(Seq<Seq<char>>, Seq<char>),
}

/// The places along the `CDPATH` pieces `ps` to look for `name`: for each
/// non-empty piece, the piece joined with `name`, then the piece joined
/// with `.` and `name`.
pub open spec fn search_candidates(ps: Seq<Seq<char>>, name: Seq<char>) -> Seq<Seq<char>>
    decreases ps.len(),
{
    if ps.len() == 0 {
        Seq::empty()
    } else {
        let prev = search_candidates(ps.drop_last(), name);
        let p = ps.last();
        if p.len() == 0 {
            prev
        } else {
            prev + seq![pushed(p, name), pushed(pushed(p, seq!['.']), name)]
        }
    }
}

/// The argument starts with `/`, `\` or `.`: it is resolved as it is.
pub open spec fn starts_explicit(z: Seq<char>) -> bool {
    z.len() > 0 && (z[0] == '/' || z[0] == '\\' || z[0] == '.')
}

/// Where the free arguments point: none goes home; `^` alone goes to
/// `OLDPWD` (or `..` without it); otherwise the arguments joined with
/// spaces are the path, looked up along `CDPATH` by the first argument
/// unless that one starts with `/`, `\` or `.`.
pub open spec fn target(free: Seq<Seq<char>>, env: CdEnvView) -> TargetView {
    if free.len() == 0 {
        match env.home {
            Some(h) => TargetView::Direct(h),
            None => TargetView::NoHome,
        }
    } else if free.len() == 1 && free[0] == seq!['^'] {
        match env.oldpwd {
            Some(o) => TargetView::Direct(o),
            None => TargetView::Direct(seq!['.', '.']),
        }
    } else {
        let default = joined(free);
        if starts_explicit(free[0]) {
            TargetView::Resolve(default)
        } else {
            match env.cdpath {
                Some(cp) => TargetView::Search(search_candidates(pieces(cp, ':'), free[0]), default),
                None => TargetView::Resolve(default),
            }
        }
    }
}

/// The outcome of resolving a path, before the file system is asked.
pub enum ResolveView {
    /// Nothing to walk: `PWD` is missing for a rooted path, or the path is empty.
    Abort,
    /// Reading the working directory failed with these details.
    Fail(Seq<char>),
    /// These places must be directories, in order; then the place reached
    /// is made canonical.
    Plan(Seq<Seq<char>>, Seq<char>),
}

/// The path to walk: a path that starts with `/` or `\` is first joined
/// onto `PWD`.
pub open spec fn anchored(cur: Seq<char>, pwd: Seq<char>) -> Seq<char> {
    if cur.len() > 0 && (cur[0] == '/' || cur[0] == '\\') {
        pushed(pwd, cur)
    } else {
        cur
    }
}

/// How `cd` resolves the path `cur`: as it is with `-p`; otherwise (after
/// joining a rooted path onto `PWD`) by walking its components from the
/// working directory, each `..` after a name going up after checking that
/// the place is a directory.
pub open spec fn resolution(physical: bool, cur: Seq<char>, env: CdEnvView) -> ResolveView {
    if physical {
        ResolveView::Plan(Seq::empty(), cur)
    } else if cur.len() > 0 && (cur[0] == '/' || cur[0] == '\\') && env.pwd is None {
        ResolveView::Abort
    } else {
        let c = anchored(cur, env.pwd.unwrap_or(Seq::empty()));
        if parts(c).len() == 0 {
            ResolveView::Abort
        } else {
            match env.cwd {
                Err(e) => ResolveView::Fail(e),
                Ok(w) => ResolveView::Plan(lexical_walk(c, w).checks, walk_end(c, w)),
            }
        }
    }
}

/// The index of the first `true` in `found` (and of its candidate), if any.
pub open spec fn first_true(found: Seq<bool>) -> Option<int>
    decreases found.len(),
{
    if found.len() == 0 {
        None
    } else if found.last() {
        match first_true(found.drop_last()) {
            Some(i) => Some(i),
            None => Some(found.len() - 1),
        }
    } else {
        first_true(found.drop_last())
    }
}

/// The candidate chosen: the first one that is a directory, else the default.
pub open spec fn chosen(candidates: Seq<Seq<char>>, found: Seq<bool>, default: Seq<char>) -> Seq<char> {
    match first_true(found) {
        Some(i) => candidates[i],
        None => default,
    }
}

/// The details of the error for a missing home directory.
pub open spec fn no_home_details() -> Seq<char> {
    "No home directory located"@
}

/// The details of the error for a `..` over a place that is no directory.
pub open spec fn not_directory_details() -> Seq<char> {
    "failed enumerating path"@
}

/// What the caller is asked to do next.
pub enum CdAction {
    /// Find out which of these places are directories, and hand back one
    /// answer for each, in order.
    CheckDirs(Vec<String>),
    /// Make this path canonical and hand back the result or the error's text.
    Canonicalize(String),
    /// Make this the working directory and hand back whether that succeeded.
    ChangeDir(String),
    /// Set the variable `PWD` to this value, then say so.
    SetPwd(String),
    /// Set the variable `OLDPWD` to this value, then say so.
    SetOldPwd(String),
    /// Stop the process: a value that `cd` needs is missing.
    Abort,
    /// `cd` is done, with this exit code.
    Finish(i32),
}

/// What the caller is asked to do next, as a value of the specification.
pub enum CdActionView {
    CheckDirs(Seq<Seq<char>>),
    Canonicalize(Seq<char>),
    ChangeDir(Seq<char>),
    SetPwd(Seq<char>),
    SetOldPwd(Seq<char>),
    Abort,
    Finish(i32),
}

impl View for CdAction {
    type V = CdActionView;

    open spec fn view(&self) -> CdActionView {
        match self {
            CdAction::CheckDirs(v) => CdActionView::CheckDirs(views(v@)),
            CdAction::Canonicalize(p) => CdActionView::Canonicalize(p@),
            CdAction::ChangeDir(p) => CdActionView::ChangeDir(p@),
            CdAction::SetPwd(p) => CdActionView::SetPwd(p@),
            CdAction::SetOldPwd(p) => CdActionView::SetOldPwd(p@),
            CdAction::Abort => CdActionView::Abort,
            CdAction::Finish(c) => CdActionView::Finish(*c),
        }
    }
}

/// Where `cd` stands.
enum Stage {
    Searching(Vec<String>, String),
    Checking(Vec<String>, String),
    Resolving,
    Changing(String, String),
    NamingNew(String),
    SettingPwd(String),
    NamingOld,
    SettingOld,
    Done,
}

/// Where `cd` stands, as a value of the specification.
pub enum StageView {
    /// Waiting to learn which candidates are directories.
    Searching(Seq<Seq<char>>, Seq<char>),
    /// Waiting to learn whether the places of the walk are directories.
    Checking(Seq<Seq<char>>, Seq<char>),
    /// Waiting for the canonical path.
    Resolving,
    /// Waiting to learn whether the directory was changed to the first
    /// path; the second is the working directory being left.
    Changing(Seq<char>, Seq<char>),
    /// Waiting for the canonical form of the new working directory; the
    /// directory left is kept.
    NamingNew(Seq<char>),
    /// Waiting for `PWD` to be set; the directory left is kept.
    SettingPwd(Seq<char>),
    /// Waiting for the canonical form of the directory left.
    NamingOld,
    /// Waiting for `OLDPWD` to be set.
    SettingOld,
    /// Finished.
    Done,
}

/// A run of `cd`.
pub struct Cd {
    stage: Stage,
    physical: bool,
    env: CdEnv,
}

/// A run of `cd`, as a value of the specification.
pub struct CdView {
    pub stage: StageView,
    pub physical: bool,
    pub env: CdEnvView,
}

impl View for Cd {
    type V = CdView;

    closed spec fn view(&self) -> CdView {
        CdView {
            stage: match self.stage {
                Stage::Searching(c, d) => StageView::Searching(views(c@), d@),
                Stage::Checking(c, p) => StageView::Checking(views(c@), p@),
                Stage::Resolving => StageView::Resolving,
                Stage::Changing(p, o) => StageView::Changing(p@, o@),
                Stage::NamingNew(o) => StageView::NamingNew(o@),
                Stage::SettingPwd(o) => StageView::SettingPwd(o@),
                Stage::NamingOld => StageView::NamingOld,
                Stage::SettingOld => StageView::SettingOld,
                Stage::Done => StageView::Done,
            },
            physical: self.physical,
            env: self.env@,
        }
    }
}

/// Going to `path`: the working directory that is left must be known (the
/// process stops otherwise); then the directory is changed.
pub open spec fn change_to(path: Seq<char>, env: CdEnvView) -> (StageView, CdActionView) {
    match env.cwd {
        Ok(o) => (StageView::Changing(path, o), CdActionView::ChangeDir(path)),
        Err(_) => (StageView::Done, CdActionView::Abort),
    }
}

/// What the caller hands back after changing directory: whether the change
/// succeeded, a canonical path (or the error's text), or that a variable
/// was set.
pub enum ChangeAnswer {
    Changed(bool),
    Canonical(Result<Seq<char>, Seq<char>>),
    VarSet,
}

/// The steps after the directory change: a failed change ends `cd` with 1;
/// after a change, `PWD` is set to the canonical form of the new working
/// directory (made canonical once the change is done), then `OLDPWD` to the
/// canonical form of the directory left, and `cd` ends with 0; a path that
/// cannot be made canonical stops the process.
pub open spec fn change_step(stage: StageView, answer: ChangeAnswer) -> (StageView, CdActionView) {
    match (stage, answer) {
        (StageView::Changing(p, o), ChangeAnswer::Changed(ok)) => if ok {
            (StageView::NamingNew(o), CdActionView::Canonicalize(p))
        } else {
            (StageView::Done, CdActionView::Finish(1))
        },
        (StageView::NamingNew(o), ChangeAnswer::Canonical(r)) => match r {
            Ok(c) => (StageView::SettingPwd(o), CdActionView::SetPwd(c)),
            Err(_) => (StageView::Done, CdActionView::Abort),
        },
        (StageView::SettingPwd(o), ChangeAnswer::VarSet) => (StageView::NamingOld, CdActionView::Canonicalize(o)),
        (StageView::NamingOld, ChangeAnswer::Canonical(r)) => match r {
            Ok(c) => (StageView::SettingOld, CdActionView::SetOldPwd(c)),
            Err(_) => (StageView::Done, CdActionView::Abort),
        },
        (StageView::SettingOld, ChangeAnswer::VarSet) => (StageView::Done, CdActionView::Finish(0)),
        _ => (StageView::Done, CdActionView::Abort),
    }
}

/// A canonical path or an error's text, as values of the specification.
pub open spec fn result_view(r: Result<String, String>) -> Result<Seq<char>, Seq<char>> {
    match r {
        Ok(p) => Ok(p@),
        Err(e) => Err(e@),
    }
}

/// The stage and action that come from a resolution, and the error text
/// written on the way.
pub open spec fn resolution_step(r: ResolveView) -> (StageView, CdActionView, Seq<u8>) {
    match r {
        ResolveView::Abort => (StageView::Done, CdActionView::Abort, Seq::empty()),
        ResolveView::Fail(e) => (StageView::Done, CdActionView::Finish(1), encode_utf8(terminated(error_message(e)))),
        ResolveView::Plan(checks, path) => if checks.len() > 0 {
            (StageView::Checking(checks, path), CdActionView::CheckDirs(checks), Seq::empty())
        } else {
            (StageView::Resolving, CdActionView::Canonicalize(path), Seq::empty())
        },
    }
}

/// The stage and action that come from a target, and the error text written.
pub open spec fn target_step(physical: bool, t: TargetView, env: CdEnvView) -> (StageView, CdActionView, Seq<u8>) {
    match t {
        TargetView::NoHome => (StageView::Done, CdActionView::Finish(1), encode_utf8(terminated(error_message(no_home_details())))),
        TargetView::Direct(d) => match change_to(d, env) {
            (stage, action) => (stage, action, Seq::empty()),
        },
        TargetView::Resolve(c) => resolution_step(resolution(physical, c, env)),
        TargetView::Search(cands, default) => if cands.len() > 0 {
            (StageView::Searching(cands, default), CdActionView::CheckDirs(cands), Seq::empty())
        } else {
            resolution_step(resolution(physical, default, env))
        },
    }
}

/// Where the arguments point.
pub enum CdTarget {
    NoHome,
    Direct(String),
    Resolve(String),
    Search(Vec<String>, String),
}

impl View for CdTarget {
    type V = TargetView;

    open spec fn view(&self) -> TargetView {
        match self {
            CdTarget::NoHome => TargetView::NoHome,
            CdTarget::Direct(d) => TargetView::Direct(d@),
            CdTarget::Resolve(c) => TargetView::Resolve(c@),
            CdTarget::Search(c, d) => TargetView::Search(views(c@), d@),
        }
    }
}

/// Where the arguments point.
pub fn get_path(free: &Vec<String>, env: &CdEnv) -> (res: CdTarget)
    ensures
        res@ == target(views(free@), env@),
{
    let ghost fv = views(free@);
    if free.len() == 0 {
        return match &env.home {
            Some(h) => CdTarget::Direct(h.clone()),
            None => CdTarget::NoHome,
        };
    }
    let z = free[0].as_str();
    let zn = z.unicode_len();
    proof {
        assert(fv[0] == z@);
        if zn == 1 {
            assert(z@ =~= seq![z@[0]]);
        }
    }
    if free.len() == 1 && zn == 1 && z.get_char(0) == '^' {
        return match &env.oldpwd {
            Some(o) => CdTarget::Direct(o.clone()),
            None => {
                proof {
                    reveal_strlit("..");
                    assert(".."@ =~= seq!['.', '.']);
                }
                CdTarget::Direct(String::from_str(".."))
            },
        };
    }
    let default = join_words(free);
    if zn > 0 && (z.get_char(0) == '/' || z.get_char(0) == '\\' || z.get_char(0) == '.') {
        return CdTarget::Resolve(default);
    }
    match &env.cdpath {
        Some(cp) => CdTarget::Search(candidates(cp.as_str(), z), default),
        None => CdTarget::Resolve(default),
    }
}

/// The places along `cdpath` (pieces separated by `:`) where `name` is looked for.
pub fn candidates(cdpath: &str, name: &str) -> (res: Vec<String>)
    ensures
        views(res@) == search_candidates(pieces(cdpath@, ':'), name@),
{
    let ps = split_pieces(cdpath, ':');
    let mut res: Vec<String> = Vec::new();
    let dot = ".";
    proof {
        reveal_strlit(".");
        assert(dot@ =~= seq!['.']);
    }
    let mut i: usize = 0;
    while i < ps.len()
        invariant
            i <= ps.len(),
            views(ps@) == pieces(cdpath@, ':'),
            dot@ == seq!['.'],
            views(res@) == search_candidates(views(ps@).take(i as int), name@),
        decreases ps.len() - i,
    {
        let p = ps[i].as_str();
        let ghost before = res@;
        proof {
            let t = views(ps@).take(i + 1);
            assert(t.drop_last() =~= views(ps@).take(i as int));
            assert(t.last() == p@);
        }
        if p.unicode_len() > 0 {
            let direct = path_join(p, name);
            let via_dot = path_join(path_join(p, dot).as_str(), name);
            res.push(direct);
            res.push(via_dot);
            proof {
                assert(views(res@) =~= views(before) + seq![pushed(p@, name@), pushed(pushed(p@, seq!['.']), name@)]);
            }
        }
        i = i + 1;
    }
    proof {
        assert(views(ps@).take(ps.len() as int) =~= views(ps@));
    }
    res
}

/// The index of the first `true` in `found`.
pub fn first_found(found: &Vec<bool>) -> (res: Option<usize>)
    ensures
        match first_true(found@) {
            Some(i) => res == Some(i as usize),
            None => res is None,
        },
{
    let mut i: usize = 0;
    while i < found.len()
        invariant
            i <= found.len(),
            first_true(found@.take(i as int)) is None,
        decreases found.len() - i,
    {
        proof {
            assert(found@.take(i + 1).drop_last() =~= found@.take(i as int));
        }
        if found[i] {
            proof {
                lemma_first_true_prefix(found@, i as int);
            }
            return Some(i);
        }
        i = i + 1;
    }
    proof {
        assert(found@.take(i as int) =~= found@);
    }
    None
}

/// The first `true` lies within the sequence and is `true`.
pub proof fn lemma_first_true_bounds(found: Seq<bool>)
    ensures
        first_true(found) matches Some(i) ==> 0 <= i < found.len() && found[i],
    decreases found.len(),
{
    if found.len() > 0 {
        lemma_first_true_bounds(found.drop_last());
    }
}

/// The first `true` of a sequence is the first `true` of any prefix that
/// holds it, once the prefix before it holds none.
pub proof fn lemma_first_true_prefix(found: Seq<bool>, i: int)
    requires
        0 <= i < found.len(),
        found[i],
        first_true(found.take(i)) is None,
    ensures
        first_true(found) == Some(i),
    decreases found.len(),
{
    if found.len() == i + 1 {
        assert(found.drop_last() =~= found.take(i));
    } else {
        assert(found.drop_last().take(i) =~= found.take(i));
        lemma_first_true_prefix(found.drop_last(), i);
    }
}

/// The outcome of resolving a path, before the file system is asked.
pub enum Resolution {
    Abort,
    Fail(String),
    Plan(Vec<String>, String),
}

impl View for Resolution {
    type V = ResolveView;

    open spec fn view(&self) -> ResolveView {
        match self {
            Resolution::Abort => ResolveView::Abort,
            Resolution::Fail(e) => ResolveView::Fail(e@),
            Resolution::Plan(c, p) => ResolveView::Plan(views(c@), p@),
        }
    }
}

/// Resolves the path `cur`.
pub fn resolve_path(physical: bool, cur: &str, env: &CdEnv) -> (res: Resolution)
    ensures
        res@ == resolution(physical, cur@, env@),
{
    if physical {
        let none: Vec<String> = Vec::new();
        proof {
            assert(views(none@) =~= Seq::<Seq<char>>::empty());
        }
        return Resolution::Plan(none, String::from_str(cur));
    }
    let n = cur.unicode_len();
    let rooted = n > 0 && (cur.get_char(0) == '/' || cur.get_char(0) == '\\');
    let anchored_path = if rooted {
        match &env.pwd {
            None => return Resolution::Abort,
            Some(pwd) => path_join(pwd.as_str(), cur),
        }
    } else {
        String::from_str(cur)
    };
    let cs = components(anchored_path.as_str());
    if cs.len() == 0 {
        return Resolution::Abort;
    }
    match &env.cwd {
        Err(e) => Resolution::Fail(e.clone()),
        Ok(w) => {
            let (checks, path) = lexical_plan(anchored_path.as_str(), w.as_str());
            Resolution::Plan(checks, path)
        },
    }
}

/// Starts `cd` with its arguments: reads them with getopts (`-p` or
/// `--physical`); arguments that getopts refuses end `cd` with -1.
pub fn function(shell: &mut Shell, arguments: Vec<String>, env: CdEnv) -> (res: (Cd, CdAction))
    ensures
        known_outcome(views(arguments@), OptionDecl::Physical) matches Some(o) ==> parse_outcome(views(arguments@), OptionDecl::Physical) == o,
        parse_outcome(views(arguments@), OptionDecl::Physical) is None ==> res.1@ == CdActionView::Finish(-1i32)
            && res.0@.stage == StageView::Done && final(shell)@ == old(shell)@,
        parse_outcome(views(arguments@), OptionDecl::Physical) matches Some(p) ==> {
            let step = target_step(p.present, target(p.free, env@), env@);
            &&& res.0@ == (CdView { stage: step.0, physical: p.present, env: env@ })
            &&& res.1@ == step.1
            &&& final(shell)@ == (Streams { errors: old(shell)@.errors + step.2, ..old(shell)@ })
        },
{
    match parse_args(&arguments, OptionDecl::Physical) {
        None => (Cd { stage: Stage::Done, physical: false, env }, CdAction::Finish(-1)),
        Some(parsed) => Cd::begin(shell, parsed, env),
    }
}

impl Cd {
    /// Goes on from parsed arguments: `-p` makes the walk physical; the free
    /// arguments say where to go.
    pub fn begin(shell: &mut Shell, parsed: ParsedArgs, env: CdEnv) -> (res: (Cd, CdAction))
        ensures
            ({
                let step = target_step(parsed.present, target(parsed@.free, env@), env@);
                &&& res.0@ == (CdView { stage: step.0, physical: parsed.present, env: env@ })
                &&& res.1@ == step.1
                &&& final(shell)@ == (Streams { errors: old(shell)@.errors + step.2, ..old(shell)@ })
            }),
    {
        let physical = parsed.present;
        let t = get_path(&parsed.free, &env);
        let mut cd = Cd { stage: Stage::Done, physical, env };
        match t {
            CdTarget::NoHome => {
                let err = Error::from("No home directory located");
                proof {
                    reveal_strlit("No home directory located");
                }
                let msg = err.message();
                let _ = shell.errln(msg.as_str());
                (cd, CdAction::Finish(1))
            },
            CdTarget::Direct(path) => {
                let action = cd.go_to(path);
                (cd, action)
            },
            CdTarget::Resolve(path) => {
                let action = cd.after_resolving(shell, path.as_str());
                (cd, action)
            },
            CdTarget::Search(cands, path) => {
                if cands.len() > 0 {
                    let shown = clone_all(&cands);
                    cd.stage = Stage::Searching(cands, path);
                    (cd, CdAction::CheckDirs(shown))
                } else {
                    let action = cd.after_resolving(shell, path.as_str());
                    (cd, action)
                }
            },
        }
    }

    /// Goes on with the answers to `CheckDirs`, one per place, in order:
    /// among candidates, the first directory (else the default path) is
    /// resolved; along a walk, any place that is no directory ends `cd`
    /// with an error, and otherwise the place reached is made canonical.
    pub fn dirs_checked(&mut self, shell: &mut Shell, found: Vec<bool>) -> (res: CdAction)
        requires
            old(self)@.stage is Searching || old(self)@.stage is Checking,
            old(self)@.stage matches StageView::Searching(c, _) ==> found@.len() == c.len(),
            old(self)@.stage matches StageView::Checking(c, _) ==> found@.len() == c.len(),
        ensures
            old(self)@.stage matches StageView::Searching(c, d) ==> {
                let step = resolution_step(resolution(old(self)@.physical, chosen(c, found@, d), old(self)@.env));
                &&& final(self)@ == (CdView { stage: step.0, ..old(self)@ })
                &&& res@ == step.1
                &&& final(shell)@ == (Streams { errors: old(shell)@.errors + step.2, ..old(shell)@ })
            },
            old(self)@.stage matches StageView::Checking(c, p) ==> {
                if forall|i: int| 0 <= i < found@.len() ==> found@[i] {
                    &&& final(self)@ == (CdView { stage: StageView::Resolving, ..old(self)@ })
                    &&& res@ == CdActionView::Canonicalize(p)
                    &&& final(shell)@ == old(shell)@
                } else {
                    &&& final(self)@ == (CdView { stage: StageView::Done, ..old(self)@ })
                    &&& res@ == CdActionView::Finish(1)
                    &&& final(shell)@ == (Streams {
                        errors: old(shell)@.errors + encode_utf8(terminated(error_message(not_directory_details()))),
                        ..old(shell)@
                    })
                }
            },
    {
        let mut stage = Stage::Done;
        std::mem::swap(&mut stage, &mut self.stage);
        match stage {
            Stage::Searching(cands, default) => {
                let pick = first_found(&found);
                proof {
                    lemma_first_true_bounds(found@);
                }
                let cur = match pick {
                    Some(i) => cands[i].clone(),
                    None => default,
                };
                proof {
                    assert(cur@ == chosen(views(cands@), found@, default@));
                }
                self.after_resolving(shell, cur.as_str())
            },
            Stage::Checking(checks, path) => {
                let mut i: usize = 0;
                let mut all = true;
                while i < found.len()
                    invariant
                        i <= found.len(),
                        all == (forall|j: int| 0 <= j < i ==> found@[j]),
                    decreases found.len() - i,
                {
                    if !found[i] {
                        all = false;
                    }
                    i = i + 1;
                }
                if all {
                    self.stage = Stage::Resolving;
                    CdAction::Canonicalize(path)
                } else {
                    let err = Error::from("failed enumerating path");
                    proof {
                        reveal_strlit("failed enumerating path");
                    }
                    let msg = err.message();
                    let _ = shell.errln(msg.as_str());
                    CdAction::Finish(1)
                }
            },
            _ => CdAction::Finish(1),
        }
    }

    /// Goes on with the canonical path (or the text of the error that making
    /// it canonical gave). Before the change, the directory is changed to
    /// it, or `cd` ends with the error; after the change, it is the value
    /// the next variable is set to.
    pub fn canonicalized(&mut self, shell: &mut Shell, resolved: Result<String, String>) -> (res: CdAction)
        requires
            old(self)@.stage is Resolving || old(self)@.stage is NamingNew || old(self)@.stage is NamingOld,
        ensures
            old(self)@.stage is Resolving ==> match resolved {
                Ok(p) => {
                    let step = change_to(p@, old(self)@.env);
                    &&& final(self)@ == (CdView { stage: step.0, ..old(self)@ })
                    &&& res@ == step.1
                    &&& final(shell)@ == old(shell)@
                },
                Err(e) => {
                    &&& final(self)@ == (CdView { stage: StageView::Done, ..old(self)@ })
                    &&& res@ == CdActionView::Finish(1)
                    &&& final(shell)@ == (Streams {
                        errors: old(shell)@.errors + encode_utf8(terminated(error_message(e@))),
                        ..old(shell)@
                    })
                },
            },
            !(old(self)@.stage is Resolving) ==> {
                let step = change_step(old(self)@.stage, ChangeAnswer::Canonical(result_view(resolved)));
                &&& final(self)@ == (CdView { stage: step.0, ..old(self)@ })
                &&& res@ == step.1
                &&& final(shell)@ == old(shell)@
            },
    {
        let mut stage = Stage::Done;
        std::mem::swap(&mut stage, &mut self.stage);
        match stage {
            Stage::NamingNew(o) => match resolved {
                Ok(c) => {
                    self.stage = Stage::SettingPwd(o);
                    CdAction::SetPwd(c)
                },
                Err(_) => CdAction::Abort,
            },
            Stage::NamingOld => match resolved {
                Ok(c) => {
                    self.stage = Stage::SettingOld;
                    CdAction::SetOldPwd(c)
                },
                Err(_) => CdAction::Abort,
            },
            _ => match resolved {
                Ok(p) => self.go_to(p),
                Err(e) => {
                    let err = Error::from(e);
                    let msg = err.message();
                    let _ = shell.errln(msg.as_str());
                    CdAction::Finish(1)
                },
            },
        }
    }

    /// Goes on with whether changing directory succeeded: a failed change
    /// ends `cd` with 1; after a change, the new working directory is made
    /// canonical.
    pub fn changed(&mut self, changed: Result<(), String>) -> (res: CdAction)
        requires
            old(self)@.stage is Changing,
        ensures
            ({
                let step = change_step(old(self)@.stage, ChangeAnswer::Changed(changed is Ok));
                &&& final(self)@ == (CdView { stage: step.0, ..old(self)@ })
                &&& res@ == step.1
            }),
    {
        let mut stage = Stage::Done;
        std::mem::swap(&mut stage, &mut self.stage);
        match stage {
            Stage::Changing(p, o) => match changed {
                Ok(()) => {
                    self.stage = Stage::NamingNew(o);
                    CdAction::Canonicalize(p)
                },
                Err(_) => CdAction::Finish(1),
            },
            _ => CdAction::Abort,
        }
    }

    /// Goes on once the variable asked for is set: after `PWD`, the
    /// directory left is made canonical; after `OLDPWD`, `cd` ends with 0.
    pub fn var_set(&mut self) -> (res: CdAction)
        requires
            old(self)@.stage is SettingPwd || old(self)@.stage is SettingOld,
        ensures
            ({
                let step = change_step(old(self)@.stage, ChangeAnswer::VarSet);
                &&& final(self)@ == (CdView { stage: step.0, ..old(self)@ })
                &&& res@ == step.1
            }),
    {
        let mut stage = Stage::Done;
        std::mem::swap(&mut stage, &mut self.stage);
        match stage {
            Stage::SettingPwd(o) => {
                self.stage = Stage::NamingOld;
                CdAction::Canonicalize(o)
            },
            Stage::SettingOld => CdAction::Finish(0),
            _ => CdAction::Abort,
        }
    }

    /// Goes to `path` once the working directory being left is known.
    fn go_to(&mut self, path: String) -> (res: CdAction)
        ensures
            ({
                let step = change_to(path@, old(self)@.env);
                &&& final(self)@ == (CdView { stage: step.0, ..old(self)@ })
                &&& res@ == step.1
            }),
    {
        match &self.env.cwd {
            Ok(o) => {
                let left = o.clone();
                let action = CdAction::ChangeDir(path.clone());
                self.stage = Stage::Changing(path, left);
                action
            },
            Err(_) => {
                self.stage = Stage::Done;
                CdAction::Abort
            },
        }
    }

    /// Resolves `cur` and moves on.
    fn after_resolving(&mut self, shell: &mut Shell, cur: &str) -> (res: CdAction)
        ensures
            ({
                let step = resolution_step(resolution(old(self).physical, cur@, old(self).env@));
                &&& final(self)@ == (CdView { stage: step.0, ..old(self)@ })
                &&& res@ == step.1
                &&& final(shell)@ == (Streams { errors: old(shell)@.errors + step.2, ..old(shell)@ })
            }),
    {
        match resolve_path(self.physical, cur, &self.env) {
            Resolution::Abort => {
                self.stage = Stage::Done;
                CdAction::Abort
            },
            Resolution::Fail(details) => {
                let err = Error::from(details);
                let msg = err.message();
                let _ = shell.errln(msg.as_str());
                self.stage = Stage::Done;
                CdAction::Finish(1)
            },
            Resolution::Plan(checks, path) => {
                if checks.len() > 0 {
                    let shown = clone_all(&checks);
                    self.stage = Stage::Checking(checks, path);
                    CdAction::CheckDirs(shown)
                } else {
                    self.stage = Stage::Resolving;
                    CdAction::Canonicalize(path)
                }
            },
        }
    }
}

/// A copy of a list of strings.
pub fn clone_all(v: &Vec<String>) -> (res: Vec<String>)
    ensures
        views(res@) == views(v@),
{
    let mut res: Vec<String> = Vec::new();
    let mut i: usize = 0;
    while i < v.len()
        invariant
            i <= v.len(),
            views(res@) == views(v@).take(i as int),
        decreases v.len() - i,
    {
        let ghost before = res@;
        let c = v[i].clone();
        res.push(c);
        proof {
            assert(views(res@) =~= views(before).push(v@[i as int]@));
            assert(views(v@).take(i + 1) =~= views(v@).take(i as int).push(v@[i as int]@));
        }
        i = i + 1;
    }
    proof {
        assert(views(v@).take(v.len() as int) =~= views(v@));
    }
    res
}

} // verus!
