//! Properties that hold across the library's operations.
use vstd::prelude::*;
use vstd::utf8::{valid_utf8, decode_utf8, encode_utf8, decode_utf8_encode_utf8};
use crate::builtin::{Builtin, builtin_table, table_lookup, named_builtin, resolve_alias};
use crate::ioface::{line_end, first_line, after_first_line, ends_with_newline, terminated};
use crate::path::{Part, Walk, step, walk, render, start, names, starts_root};
use crate::prompt::{digit_char, decimal, zero_padded, code_text};
use crate::text::{pieces, join_with, lemma_pieces_nonempty};
use crate::shell::run_words;
use crate::builtin::pwd::start_path;
use crate::builtin::source::script_candidates;
use crate::environment::kept;
use crate::path::{pushed, body_parts};
use crate::builtin::source::{begin_step, no_filename_message};
use crate::options::ParsedView;
use crate::text::{lines, views};
use crate::builtin::cd::{search_candidates, target, resolution};
use crate::builtin::source::{SourceStageView, SourceActionView, line_step};
use crate::shell::DispatchView;
use crate::builtin::cd::{first_true, chosen, lemma_first_true_prefix, TargetView, CdEnvView, ResolveView, CdActionView, StageView, ChangeAnswer, target_step, resolution_step, change_step};
use crate::text::{words, joined, lemma_words_shape, lemma_words_joined, is_word, lemma_words_of_word, lemma_words_space_split, lead, trail, trimmed, is_space, lemma_lead_stops, lemma_trail_stops};

verus! {

/// The aliases name the builtins they stand for: `:` calls what `noop`
/// calls, and `.` calls what `source` calls.
pub proof fn law_aliases()
    ensures
        named_builtin(seq![':']) == named_builtin(seq!['n', 'o', 'o', 'p']),
        named_builtin(seq![':']) == Some(Builtin::Noop),
        named_builtin(seq!['.']) == named_builtin(seq!['s', 'o', 'u', 'r', 'c', 'e']),
        named_builtin(seq!['.']) == Some(Builtin::Source),
{
    reveal_with_fuel(table_lookup, 8);
    assert(seq!['.'][0] != seq![':'][0]);
    assert(resolve_alias(seq!['.']) == seq!['s', 'o', 'u', 'r', 'c', 'e']);
    assert(builtin_table()[5].0 =~= seq!['s', 'o', 'u', 'r', 'c', 'e']);
}

/// Each name in the table of builtins calls the builtin it is listed with,
/// and no two entries share a name.
pub proof fn law_table_names()
    ensures
        forall|i: int|
            0 <= i < builtin_table().len() ==> named_builtin(#[trigger] builtin_table()[i].0)
                == Some(builtin_table()[i].1),
        forall|i: int, j: int|
            0 <= i < j < builtin_table().len() ==> builtin_table()[i].0
                != builtin_table()[j].0,
{
    reveal_with_fuel(table_lookup, 8);
    let t = builtin_table();
    assert(t[0].0 =~= seq!['c', 'd']);
    assert(t[1].0 =~= seq!['f', 'a', 'l', 's', 'e']);
    assert(t[2].0 =~= seq!['p', 'w', 'd']);
    assert(t[3].0 =~= seq!['t', 'r', 'u', 'e']);
    assert(t[4].0 =~= seq!['n', 'o', 'o', 'p']);
    assert(t[5].0 =~= seq!['s', 'o', 'u', 'r', 'c', 'e']);
    assert(t[6].0 =~= seq!['e', 'v', 'a', 'l']);
    assert(t[3].0[0] != t[4].0[0]);
    assert(t[0].0[0] != t[2].0[0]);
    assert(t[1].0[0] != t[3].0[0]);
    assert(t[2].0[0] != t[3].0[0]);
    assert(t[3].0[0] != t[6].0[0]);
    assert(t[4].0[0] != t[6].0[0]);
    assert forall|i: int| 0 <= i < t.len() implies resolve_alias(#[trigger] t[i].0) == t[i].0 by {
        assert(t[i].0.len() > 1);
    }
}

/// `eval` followed by a command line runs that command line: the words
/// `eval` and a space in front of any text change nothing of what it runs.
pub proof fn law_eval_line(s: Seq<char>)
    ensures
        run_words(words(seq!['e', 'v', 'a', 'l', ' '] + s)) == run_words(words(s)),
{
    let e = seq!['e', 'v', 'a', 'l'];
    assert(seq!['e', 'v', 'a', 'l', ' '] + s =~= e + seq![' '] + s);
    lemma_words_space_split(e, s);
    assert(is_word(e)) by {
        if e.contains(' ') {
            let k = choose|k: int| 0 <= k < e.len() && e[k] == ' ';
            assert(e[k] != ' ');
        }
    }
    lemma_words_of_word(e);
    let ws = words(e + seq![' '] + s);
    assert(ws == seq![e] + words(s));
    assert(ws[0] == e);
    assert(ws.drop_first() =~= words(s));
    reveal_with_fuel(table_lookup, 8);
    assert(named_builtin(e) == Some(Builtin::Eval));
}

/// A line is terminated exactly once: the result ends with a line feed,
/// starts with the line, is the line itself when it already ended with a
/// line feed, and terminating it again changes nothing.
pub proof fn law_terminated(s: Seq<char>)
    ensures
        ends_with_newline(terminated(s)),
        terminated(s).take(s.len() as int) == s,
        ends_with_newline(s) <==> terminated(s) == s,
        terminated(terminated(s)) == terminated(s),
{
    if !ends_with_newline(s) {
        assert(terminated(s).take(s.len() as int) =~= s);
        assert(terminated(s).len() != s.len());
    } else {
        assert(s.take(s.len() as int) =~= s);
    }
}

/// Scanning for the end of a line from inside a text with no line feed
/// before its end stops at the first line feed after it.
proof fn lemma_line_end_skips(line: Seq<char>, rest: Seq<char>, k: int)
    requires
        0 <= k <= line.len(),
        !line.contains('\n'),
    ensures
        line_end(line.push('\n') + rest, k) == line.len() + 1,
    decreases line.len() - k,
{
    let s = line.push('\n') + rest;
    if k < line.len() {
        assert(s[k] == line[k]);
        lemma_line_end_skips(line, rest, k + 1);
    } else {
        assert(s[k] == '\n');
    }
}

/// A line supplied with its line feed is read back whole, and what follows
/// it is left to be read next.
pub proof fn law_line_read_back(line: Seq<char>, rest: Seq<char>)
    requires
        !line.contains('\n'),
    ensures
        first_line(line.push('\n') + rest) == line.push('\n'),
        after_first_line(line.push('\n') + rest) == rest,
{
    lemma_line_end_skips(line, rest, 0);
    assert((line.push('\n') + rest).take(line.len() + 1int) =~= line.push('\n'));
    assert((line.push('\n') + rest).skip(line.len() + 1int) =~= rest);
}

/// Encoding a concatenation encodes each part in turn.
proof fn lemma_encode_concat(a: Seq<char>, b: Seq<char>)
    ensures
        encode_utf8(a + b) == encode_utf8(a) + encode_utf8(b),
    decreases a.len(),
{
    if a.len() == 0 {
        assert(a + b =~= b);
        assert(encode_utf8(a) =~= Seq::<u8>::empty());
        assert(encode_utf8(a) + encode_utf8(b) =~= encode_utf8(b));
    } else {
        lemma_encode_concat(a.drop_first(), b);
        assert((a + b).drop_first() =~= a.drop_first() + b);
        assert((a + b)[0] == a[0]);
        assert(encode_utf8(a + b) =~= encode_utf8(a) + encode_utf8(b));
    }
}

/// A text buffer gives back the bytes written to it: after writing `first`
/// and then `second`, both UTF-8, to an empty buffer, its bytes are `first`
/// followed by `second`.
pub proof fn law_buffer_read_back(first: Seq<u8>, second: Seq<u8>)
    requires
        valid_utf8(first),
        valid_utf8(second),
    ensures
        encode_utf8(Seq::<char>::empty() + decode_utf8(first)) == first,
        encode_utf8(Seq::<char>::empty() + decode_utf8(first) + decode_utf8(second)) == first
            + second,
{
    decode_utf8_encode_utf8(first);
    decode_utf8_encode_utf8(second);
    assert(Seq::<char>::empty() + decode_utf8(first) =~= decode_utf8(first));
    assert(Seq::<char>::empty() + decode_utf8(first) + decode_utf8(second) =~= decode_utf8(first)
        + decode_utf8(second));
    lemma_encode_concat(decode_utf8(first), decode_utf8(second));
}

/// Trimming is idempotent: a trimmed text has nothing more to trim.
pub proof fn law_trim_idempotent(s: Seq<char>)
    ensures
        trimmed(trimmed(s)) == trimmed(s),
{
    let lo = lead(s, 0);
    lemma_lead_stops(s, 0);
    let hi = trail(s, lo, s.len() as int);
    lemma_trail_stops(s, lo, s.len() as int);
    let t = trimmed(s);
    assert(t == s.subrange(lo, hi));
    if t.len() == 0 {
        assert(lead(t, 0) == 0);
        assert(trail(t, 0, 0) == 0);
        assert(t.subrange(0, 0) =~= t);
    } else {
        assert(t[0] == s[lo]);
        assert(!is_space(t[0]));
        assert(lead(t, 0) == 0);
        assert(t[t.len() - 1] == s[hi - 1]);
        assert(trail(t, 0, t.len() as int) == t.len());
        assert(t.subrange(0, t.len() as int) =~= t);
    }
}

/// The walk over two runs of components is the walk over the first run
/// continued over the second.
pub proof fn law_walk_concat(w: Walk, a: Seq<Part>, b: Seq<Part>)
    ensures
        walk(w, a + b) == walk(walk(w, a), b),
    decreases a.len(),
{
    if a.len() == 0 {
        assert(a + b =~= b);
    } else {
        assert((a + b)[0] == a[0]);
        assert((a + b).drop_first() =~= a.drop_first() + b);
        law_walk_concat(step(w, a[0]), a.drop_first(), b);
    }
}

/// A name followed by `..` leads back where the walk stood, once the place
/// the name leads to has been checked to be a directory.
pub proof fn law_name_then_parent(w: Walk, n: Seq<char>)
    ensures
        walk(w, seq![Part::Name(n), Part::Parent]).segs == w.segs,
        walk(w, seq![Part::Name(n), Part::Parent]).absolute == w.absolute,
        walk(w, seq![Part::Name(n), Part::Parent]).checks == w.checks.push(
            render(w.absolute, w.segs.push(n)),
        ),
{
    let cs = seq![Part::Name(n), Part::Parent];
    let w1 = step(w, Part::Name(n));
    assert(cs[0] == Part::Name(n));
    assert(cs.drop_first() =~= seq![Part::Parent]);
    assert(seq![Part::Parent].drop_first() =~= Seq::<Part>::empty());
    assert(w1.segs.drop_last() =~= w.segs);
    assert(walk(w, cs) == walk(w1, seq![Part::Parent]));
    assert(walk(w1, seq![Part::Parent]) == walk(step(w1, Part::Parent), Seq::<Part>::empty()));
}

/// What `source` does once its script has lines `ls`, line `k` is running,
/// and each line `i` that runs exits with `codes[i]`: the action it ends
/// with and how many lines ran in all.
pub open spec fn script_run(ls: Seq<Seq<char>>, codes: Seq<i32>, k: int) -> (SourceActionView, int)
    decreases ls.len() - k,
{
    if k < 0 || k >= ls.len() {
        (SourceActionView::Finish(0), k)
    } else {
        let next = line_step(SourceStageView::Running(ls, k), codes[k]);
        if next.1 is RunLine {
            script_run(ls, codes, k + 1)
        } else {
            (next.1, k + 1)
        }
    }
}

/// Where the first line at or after `k` that fails stands, or `n`.
pub open spec fn first_failure_from(codes: Seq<i32>, k: int, n: int) -> int
    decreases n - k,
{
    if k >= n {
        n
    } else if codes[k] != 0 {
        k
    } else {
        first_failure_from(codes, k + 1, n)
    }
}

/// A script's lines run in order until one fails: driving `source` from its
/// first line, with one exit code for each line, it always ends with 0,
/// after running every line up to and including the first that fails (all
/// of them when none fails).
pub proof fn law_source_runs_until_failure(ls: Seq<Seq<char>>, codes: Seq<i32>)
    requires
        ls.len() > 0,
        codes.len() == ls.len(),
    ensures
        script_run(ls, codes, 0).0 == SourceActionView::Finish(0),
        script_run(ls, codes, 0).1 == (if first_failure_from(codes, 0, ls.len() as int) < ls.len() {
            first_failure_from(codes, 0, ls.len() as int) + 1
        } else {
            ls.len() as int
        }),
{
    lemma_script_run_from(ls, codes, 0);
}

/// The run from line `k` on ends with 0 after the first failure at or after
/// `k`, or after the last line.
proof fn lemma_script_run_from(ls: Seq<Seq<char>>, codes: Seq<i32>, k: int)
    requires
        0 <= k < ls.len(),
        codes.len() == ls.len(),
    ensures
        script_run(ls, codes, k).0 == SourceActionView::Finish(0),
        script_run(ls, codes, k).1 == (if first_failure_from(codes, k, ls.len() as int) < ls.len() {
            first_failure_from(codes, k, ls.len() as int) + 1
        } else {
            ls.len() as int
        }),
    decreases ls.len() - k,
{
    let n = ls.len() as int;
    if codes[k] == 0 {
        assert(first_failure_from(codes, k, n) == first_failure_from(codes, k + 1, n));
        if k + 1 < n {
            lemma_script_run_from(ls, codes, k + 1);
        } else {
            assert(first_failure_from(codes, k + 1, n) == n);
        }
    }
}

/// Spacing does not matter to a command line: its words joined by single
/// spaces split into the same words, so they run the same.
pub proof fn law_words_normal_form(s: Seq<char>)
    ensures
        words(joined(words(s))) == words(s),
        run_words(words(joined(words(s)))) == run_words(words(s)),
{
    lemma_words_shape(s);
    lemma_words_joined(words(s));
}

/// Once its arguments are read, `cd` ends on its own only with 1 (a missing
/// home directory, a failed walk or a path that cannot be made canonical);
/// otherwise it asks for a directory change, whose outcome ends it with 0
/// or 1 (`Cd::changed`), or stops the process.
pub proof fn law_cd_exit_codes(physical: bool, t: TargetView, env: CdEnvView, r: ResolveView)
    ensures
        target_step(physical, t, env).1 matches CdActionView::Finish(c) ==> c == 1,
        resolution_step(r).1 matches CdActionView::Finish(c) ==> c == 1,
{
}

/// The actions `cd` asks for after it asks to change directory, when the
/// caller hands back `answers` in turn, up to the one that ends it.
pub open spec fn change_run(stage: StageView, answers: Seq<ChangeAnswer>) -> Seq<CdActionView>
    decreases answers.len(),
{
    if answers.len() == 0 {
        Seq::empty()
    } else {
        let next = change_step(stage, answers[0]);
        if next.1 is Finish || next.1 is Abort {
            seq![next.1]
        } else {
            seq![next.1] + change_run(next.0, answers.drop_first())
        }
    }
}

/// After `cd` asks to change to `p`, leaving `o`, whatever the caller hands
/// back: it ends only with 0 or 1; with 1 it sets no variable (the change
/// failed); with 0 it has set `PWD` to the canonical form of `p` (taken
/// after the change) and then `OLDPWD` to the canonical form of `o`, and
/// asked for nothing else.
pub proof fn law_cd_variables(p: Seq<char>, o: Seq<char>, answers: Seq<ChangeAnswer>)
    ensures
        ({
            let acts = change_run(StageView::Changing(p, o), answers);
            &&& (acts.len() > 0 && acts.last() is Finish) ==> (acts.last() == CdActionView::Finish(0) || acts.last() == CdActionView::Finish(1))
            &&& acts.len() > 0 && acts.last() == CdActionView::Finish(1) ==> acts == seq![CdActionView::Finish(1)]
            &&& acts.len() > 0 && acts.last() == CdActionView::Finish(0) ==> {
                &&& answers.len() >= 5
                &&& answers[1] matches ChangeAnswer::Canonical(Ok(x))
                &&& answers[3] matches ChangeAnswer::Canonical(Ok(y))
                &&& acts == seq![
                    CdActionView::Canonicalize(p),
                    CdActionView::SetPwd(x),
                    CdActionView::Canonicalize(o),
                    CdActionView::SetOldPwd(y),
                    CdActionView::Finish(0),
                ]
            }
        }),
{
    reveal_with_fuel(change_run, 6);
}

/// The actions `source` asks for while its script runs, when the lines
/// that run exit with `codes` in turn.
pub open spec fn source_asks(stage: SourceStageView, codes: Seq<i32>) -> Seq<SourceActionView>
    decreases codes.len(),
{
    if codes.len() == 0 {
        Seq::empty()
    } else {
        let next = line_step(stage, codes[0]);
        if next.1 is RunLine {
            seq![next.1] + source_asks(next.0, codes.drop_first())
        } else {
            seq![next.1]
        }
    }
}

/// The lines of a script as the lines `source` asks to run.
pub open spec fn run_requests(ls: Seq<Seq<char>>) -> Seq<SourceActionView> {
    ls.map_values(|l: Seq<char>| SourceActionView::RunLine(l))
}

/// From line `k` on, `source` asks to run each later line once, in order,
/// up to and including the first that fails, then ends with 0.
proof fn lemma_source_asks_from(ls: Seq<Seq<char>>, codes: Seq<i32>, k: int)
    requires
        0 <= k < ls.len(),
        codes.len() == ls.len() - k,
    ensures
        source_asks(SourceStageView::Running(ls, k), codes) == run_requests(
            ls.subrange(k + 1, (if first_failure_from(codes, 0, codes.len() as int) < codes.len() {
                k + 1 + first_failure_from(codes, 0, codes.len() as int)
            } else {
                ls.len() as int
            })),
        ).push(SourceActionView::Finish(0)),
    decreases ls.len() - k,
{
    let n = codes.len() as int;
    let next = line_step(SourceStageView::Running(ls, k), codes[0]);
    if codes[0] == 0 && k + 1 < ls.len() {
        assert(next == (SourceStageView::Running(ls, k + 1), SourceActionView::RunLine(ls[k + 1])));
        let rest = codes.drop_first();
        lemma_source_asks_from(ls, rest, k + 1);
        assert(first_failure_from(codes, 0, n) == first_failure_from(codes, 1, n));
        lemma_first_failure_drop(codes, 1, n);
        lemma_first_failure_bounds(rest, 0, n - 1);
        let f = first_failure_from(codes, 0, n);
        let end = if f < n { k + 1 + f } else { ls.len() as int };
        assert(end >= k + 2);
        let tail_end = if first_failure_from(rest, 0, rest.len() as int) < rest.len() {
            k + 2 + first_failure_from(rest, 0, rest.len() as int)
        } else {
            ls.len() as int
        };
        assert(tail_end == end);
        assert(run_requests(ls.subrange(k + 1, end)) =~= seq![SourceActionView::RunLine(ls[k + 1])]
            + run_requests(ls.subrange(k + 2, end)));
        assert(source_asks(SourceStageView::Running(ls, k), codes) == seq![next.1] + source_asks(next.0, rest));
        assert(seq![SourceActionView::RunLine(ls[k + 1])] + run_requests(ls.subrange(k + 2, end)).push(
            SourceActionView::Finish(0),
        ) =~= run_requests(ls.subrange(k + 1, end)).push(SourceActionView::Finish(0)));
    } else {
        assert(next.1 == SourceActionView::Finish(0));
        if codes[0] != 0 {
            assert(first_failure_from(codes, 0, n) == 0);
        } else {
            assert(n == 1);
            assert(first_failure_from(codes, 1, n) == n);
            assert(first_failure_from(codes, 0, n) == n);
        }
        assert(run_requests(ls.subrange(k + 1, k + 1)) =~= Seq::<SourceActionView>::empty());
        assert(source_asks(SourceStageView::Running(ls, k), codes) =~= seq![SourceActionView::Finish(0)]);
        assert(Seq::<SourceActionView>::empty().push(SourceActionView::Finish(0)) =~= seq![SourceActionView::Finish(0)]);
    }
}

/// The first failure at or after `k` in `codes` is one more than the first
/// failure at or after `k - 1` in `codes` without its first element.
proof fn lemma_first_failure_drop(codes: Seq<i32>, k: int, n: int)
    requires
        1 <= k <= n,
        n == codes.len(),
    ensures
        first_failure_from(codes, k, n) == first_failure_from(codes.drop_first(), k - 1, n - 1) + 1,
    decreases n - k,
{
    if k < n {
        assert(codes.drop_first()[k - 1] == codes[k]);
        lemma_first_failure_drop(codes, k + 1, n);
    }
}

/// A script's lines run in order, each once: once its first line runs,
/// `source` asks to run each following line in turn, up to and including
/// the first line that fails (every line when none fails), and then ends
/// with 0. With every line succeeding, the lines it asks to run are the
/// script's lines exactly.
pub proof fn law_source_runs_each_line_once(ls: Seq<Seq<char>>, codes: Seq<i32>)
    requires
        ls.len() > 0,
        codes.len() == ls.len(),
    ensures
        source_asks(SourceStageView::Running(ls, 0), codes) == run_requests(
            ls.subrange(1, (if first_failure_from(codes, 0, ls.len() as int) < ls.len() {
                first_failure_from(codes, 0, ls.len() as int) + 1
            } else {
                ls.len() as int
            })),
        ).push(SourceActionView::Finish(0)),
        (forall|i: int| 0 <= i < codes.len() ==> codes[i] == 0) ==> seq![SourceActionView::RunLine(ls[0])]
            + source_asks(SourceStageView::Running(ls, 0), codes) == run_requests(ls).push(
            SourceActionView::Finish(0),
        ),
{
    lemma_source_asks_from(ls, codes, 0);
    if forall|i: int| 0 <= i < codes.len() ==> codes[i] == 0 {
        lemma_no_failure(codes, 0);
        assert(seq![SourceActionView::RunLine(ls[0])] + run_requests(ls.subrange(1, ls.len() as int))
            =~= run_requests(ls));
        assert(seq![SourceActionView::RunLine(ls[0])] + run_requests(ls.subrange(1, ls.len() as int)).push(
            SourceActionView::Finish(0),
        ) =~= run_requests(ls).push(SourceActionView::Finish(0)));
    }
}

/// The first failure at or after `k` lies between `k` and the end.
proof fn lemma_first_failure_bounds(codes: Seq<i32>, k: int, n: int)
    requires
        0 <= k <= n,
    ensures
        k <= first_failure_from(codes, k, n) <= n,
    decreases n - k,
{
    if k < n && codes[k] == 0 {
        lemma_first_failure_bounds(codes, k + 1, n);
    }
}

/// Without a failing code, the first failure is the end.
proof fn lemma_no_failure(codes: Seq<i32>, k: int)
    requires
        0 <= k <= codes.len(),
        forall|i: int| 0 <= i < codes.len() ==> codes[i] == 0,
    ensures
        first_failure_from(codes, k, codes.len() as int) == codes.len(),
    decreases codes.len() - k,
{
    if k < codes.len() {
        lemma_no_failure(codes, k + 1);
    }
}

/// `n` copies of `..` as path segments.
pub open spec fn ups(n: nat) -> Seq<Seq<char>> {
    Seq::new(n, |i: int| seq!['.', '.'])
}

/// `n` components `..`.
pub open spec fn parent_parts(n: nat) -> Seq<Part> {
    Seq::new(n, |i: int| Part::Parent)
}

/// Over a walk that stands on an unpopped `..` or on the root, further
/// `..` components are each kept, and nothing is checked.
proof fn lemma_parents_kept(w: Walk, n: nat)
    requires
        w.blocked,
    ensures
        walk(w, parent_parts(n)).segs == w.segs + ups(n),
        walk(w, parent_parts(n)).checks == w.checks,
        walk(w, parent_parts(n)).absolute == w.absolute,
    decreases n,
{
    if n == 0 {
        assert(w.segs + ups(0) =~= w.segs);
    } else {
        let w1 = step(w, Part::Parent);
        assert(parent_parts(n)[0] == Part::Parent);
        assert(parent_parts(n).drop_first() =~= parent_parts((n - 1) as nat));
        lemma_parents_kept(w1, (n - 1) as nat);
        assert(w1.segs == w.segs.push(seq!['.', '.']));
        assert(w.segs.push(seq!['.', '.']) + ups((n - 1) as nat) =~= w.segs + ups(n));
    }
}

/// A `..` is only ever taken back over a name: a path that starts with `n`
/// components `..` walks up from the working directory by keeping all of
/// them, and one that starts at the root keeps every `..` after it; in
/// neither case is a place checked.
pub proof fn law_leading_parents_kept(cwd: Seq<char>, n: nat)
    ensures
        walk(start(Part::Parent, cwd), parent_parts(n)).segs == names(pieces(cwd, '/')) + ups(n + 1),
        walk(start(Part::Parent, cwd), parent_parts(n)).checks == Seq::<Seq<char>>::empty(),
        walk(start(Part::Parent, cwd), parent_parts(n)).absolute == starts_root(cwd),
        walk(start(Part::Root, cwd), parent_parts(n)).segs == ups(n),
        walk(start(Part::Root, cwd), parent_parts(n)).checks == Seq::<Seq<char>>::empty(),
        walk(start(Part::Root, cwd), parent_parts(n)).absolute,
{
    let w = start(Part::Parent, cwd);
    lemma_parents_kept(w, n);
    assert(names(pieces(cwd, '/')).push(seq!['.', '.']) + ups(n) =~= names(pieces(cwd, '/')) + ups(n + 1));
    let r = start(Part::Root, cwd);
    lemma_parents_kept(r, n);
    assert(Seq::<Seq<char>>::empty() + ups(n) =~= ups(n));
}

/// A name that the builtin table or an alias gives to `cd`, `pwd` or
/// `source` runs that builtin with the other words as its arguments; `true`,
/// `noop` and `:` end with 0 and `false` with 1 whatever the arguments;
/// `eval` runs its arguments; any other name is an outside program run with
/// the other words.
pub proof fn law_command_names(args: Seq<Seq<char>>, name: Seq<char>)
    ensures
        run_words(seq![seq!['c', 'd']] + args) == DispatchView::Builtin(Builtin::Cd, args),
        run_words(seq![seq!['p', 'w', 'd']] + args) == DispatchView::Builtin(Builtin::Pwd, args),
        run_words(seq![seq!['s', 'o', 'u', 'r', 'c', 'e']] + args) == DispatchView::Builtin(Builtin::Source, args),
        run_words(seq![seq!['.']] + args) == DispatchView::Builtin(Builtin::Source, args),
        run_words(seq![seq!['t', 'r', 'u', 'e']] + args) == DispatchView::Exit(0),
        run_words(seq![seq!['n', 'o', 'o', 'p']] + args) == DispatchView::Exit(0),
        run_words(seq![seq![':']] + args) == DispatchView::Exit(0),
        run_words(seq![seq!['f', 'a', 'l', 's', 'e']] + args) == DispatchView::Exit(1),
        run_words(seq![seq!['e', 'v', 'a', 'l']] + args) == run_words(args),
        (name != seq!['c', 'd'] && name != seq!['p', 'w', 'd'] && name != seq!['s', 'o', 'u', 'r', 'c', 'e']
            && name != seq!['.'] && name != seq!['t', 'r', 'u', 'e'] && name != seq!['n', 'o', 'o', 'p']
            && name != seq![':'] && name != seq!['f', 'a', 'l', 's', 'e'] && name != seq!['e', 'v', 'a', 'l'])
            ==> run_words(seq![name] + args) == DispatchView::External(name, args),
{
    reveal_with_fuel(table_lookup, 8);
    law_table_names();
    law_aliases();
    let t = builtin_table();
    assert forall|w: Seq<char>| #![trigger seq![w] + args]
        (seq![w] + args)[0] == w && (seq![w] + args).drop_first() == args by {
        assert((seq![w] + args).drop_first() =~= args);
    }
    assert(named_builtin(t[0].0) == Some(t[0].1));
    assert(named_builtin(t[1].0) == Some(t[1].1));
    assert(named_builtin(t[2].0) == Some(t[2].1));
    assert(named_builtin(t[3].0) == Some(t[3].1));
    assert(named_builtin(t[4].0) == Some(t[4].1));
    assert(named_builtin(t[5].0) == Some(t[5].1));
    assert(named_builtin(t[6].0) == Some(t[6].1));
    assert(t[0].0 =~= seq!['c', 'd']);
    assert(t[1].0 =~= seq!['f', 'a', 'l', 's', 'e']);
    assert(t[2].0 =~= seq!['p', 'w', 'd']);
    assert(t[3].0 =~= seq!['t', 'r', 'u', 'e']);
    assert(t[4].0 =~= seq!['n', 'o', 'o', 'p']);
    assert(t[5].0 =~= seq!['s', 'o', 'u', 'r', 'c', 'e']);
    assert(t[6].0 =~= seq!['e', 'v', 'a', 'l']);
    assert((seq![name] + args)[0] == name);
    assert((seq![name] + args).drop_first() =~= args);
}

/// No answer is `true`, so there is no first `true`.
proof fn lemma_first_true_none(found: Seq<bool>)
    requires
        forall|i: int| 0 <= i < found.len() ==> !found[i],
    ensures
        first_true(found) is None,
    decreases found.len(),
{
    if found.len() > 0 {
        lemma_first_true_none(found.drop_last());
    }
}

/// How `cd` picks among the `CDPATH` candidates, in terms of the answers to
/// which of them are directories: the first candidate that is a directory
/// is resolved; when none is, the arguments joined by spaces are.
pub proof fn law_cd_search_choice(cands: Seq<Seq<char>>, found: Seq<bool>, default: Seq<char>)
    requires
        found.len() == cands.len(),
    ensures
        (forall|i: int| 0 <= i < found.len() ==> !found[i]) ==> chosen(cands, found, default) == default,
        forall|i: int|
            0 <= i < found.len() && found[i] && (forall|j: int| 0 <= j < i ==> !found[j]) ==> chosen(cands, found, default)
                == cands[i],
{
    if forall|i: int| 0 <= i < found.len() ==> !found[i] {
        lemma_first_true_none(found);
    }
    assert forall|i: int|
        0 <= i < found.len() && found[i] && (forall|j: int| 0 <= j < i ==> !found[j]) implies chosen(cands, found, default)
            == cands[i] by {
        lemma_first_true_none(found.take(i));
        lemma_first_true_prefix(found, i);
    }
}

/// A character is a decimal digit.
pub open spec fn is_digit(c: char) -> bool {
    '0' <= c && c <= '9'
}

/// The value of a string of decimal digits, read by character codes.
pub open spec fn numeral_value(s: Seq<char>) -> int
    decreases s.len(),
{
    if s.len() == 0 {
        0
    } else {
        numeral_value(s.drop_last()) * 10 + (s.last() as int - '0' as int)
    }
}

/// Each digit character has the code of `0` plus its value.
proof fn lemma_digit_char(d: int)
    requires
        0 <= d < 10,
    ensures
        digit_char(d) as int == '0' as int + d,
{
    let t = seq!['0', '1', '2', '3', '4', '5', '6', '7', '8', '9'];
    assert(digit_char(d) == t[d]);
    if d == 0 { assert(t[0] == '0'); }
    else if d == 1 { assert(t[1] == '1'); }
    else if d == 2 { assert(t[2] == '2'); }
    else if d == 3 { assert(t[3] == '3'); }
    else if d == 4 { assert(t[4] == '4'); }
    else if d == 5 { assert(t[5] == '5'); }
    else if d == 6 { assert(t[6] == '6'); }
    else if d == 7 { assert(t[7] == '7'); }
    else if d == 8 { assert(t[8] == '8'); }
    else { assert(t[9] == '9'); }
}

/// A `0` in front changes no value.
proof fn lemma_leading_zero(s: Seq<char>)
    ensures
        numeral_value(seq!['0'] + s) == numeral_value(s),
    decreases s.len(),
{
    let t = seq!['0'] + s;
    if s.len() > 0 {
        lemma_leading_zero(s.drop_last());
        assert(t.drop_last() =~= seq!['0'] + s.drop_last());
        assert(t.last() == s.last());
        assert(numeral_value(t) == numeral_value(t.drop_last()) * 10 + (t.last() as int - '0' as int));
        assert(numeral_value(s) == numeral_value(s.drop_last()) * 10 + (s.last() as int - '0' as int));
    } else {
        assert(t =~= seq!['0']);
        assert(t.drop_last() =~= Seq::<char>::empty());
        assert(t.last() == '0');
        assert(numeral_value(t) == numeral_value(t.drop_last()) * 10 + (t.last() as int - '0' as int));
        assert(numeral_value(Seq::<char>::empty()) == 0);
    }
}

/// `decimal(n)` is the numeral of `n`: digits only, reading back as `n`,
/// and without a leading `0` unless it is `0` itself.
pub proof fn law_decimal_numeral(n: nat)
    ensures
        decimal(n).len() > 0,
        forall|i: int| 0 <= i < decimal(n).len() ==> is_digit(#[trigger] decimal(n)[i]),
        numeral_value(decimal(n)) == n,
        n > 0 ==> decimal(n)[0] != '0',
    decreases n,
{
    if n < 10 {
        lemma_digit_char(n as int);
        let d = decimal(n);
        assert(d == seq![digit_char(n as int)]);
        assert(d.drop_last() =~= Seq::<char>::empty());
        assert(d.last() == digit_char(n as int));
        assert(numeral_value(d) == numeral_value(d.drop_last()) * 10 + (d.last() as int - '0' as int));
        assert(numeral_value(Seq::<char>::empty()) == 0);
        assert(is_digit(d[0]));
    } else {
        let q = n / 10;
        let r = (n % 10) as int;
        law_decimal_numeral(q);
        lemma_digit_char(r);
        let d = decimal(n);
        assert(d == decimal(q).push(digit_char(r)));
        assert(d.drop_last() =~= decimal(q));
        assert forall|i: int| 0 <= i < d.len() implies is_digit(#[trigger] d[i]) by {
            if i < decimal(q).len() {
                assert(d[i] == decimal(q)[i]);
            }
        }
        assert(d[0] == decimal(q)[0]);
        assert(d.last() == digit_char(r));
        assert(numeral_value(d) == numeral_value(d.drop_last()) * 10 + (d.last() as int - '0' as int));
        assert(n == q * 10 + r);
    }
}

/// Zero padding keeps the digits and their value and reaches the width.
proof fn lemma_padded_numeral(s: Seq<char>, width: nat)
    requires
        forall|i: int| 0 <= i < s.len() ==> is_digit(#[trigger] s[i]),
    ensures
        forall|i: int| 0 <= i < zero_padded(s, width).len() ==> is_digit(#[trigger] zero_padded(s, width)[i]),
        numeral_value(zero_padded(s, width)) == numeral_value(s),
        zero_padded(s, width).len() == (if s.len() >= width { s.len() as int } else { width as int }),
    decreases width - s.len(),
{
    if s.len() < width {
        let t = seq!['0'] + s;
        assert forall|i: int| 0 <= i < t.len() implies is_digit(#[trigger] t[i]) by {
            if i > 0 {
                assert(t[i] == s[i - 1]);
            }
        }
        lemma_leading_zero(s);
        lemma_padded_numeral(t, width);
    }
}

/// The exit code as the prompt shows it reads back as its absolute value,
/// in exactly three digits when that fits, else in its own digits with no
/// leading `0`.
pub proof fn law_code_text_value(exit_code: i32)
    ensures
        forall|i: int| 0 <= i < code_text(exit_code).len() ==> is_digit(#[trigger] code_text(exit_code)[i]),
        numeral_value(code_text(exit_code)) == (if exit_code < 0 { -(exit_code as int) } else { exit_code as int }),
        code_text(exit_code).len() >= 3,
        code_text(exit_code).len() > 3 ==> code_text(exit_code)[0] != '0',
{
    let m: nat = (if exit_code < 0 { -(exit_code as int) } else { exit_code as int }) as nat;
    law_decimal_numeral(m);
    lemma_padded_numeral(decimal(m), 3);
    if decimal(m).len() <= 3 {
    } else {
        assert(m > 0) by {
            if m == 0 {
                assert(decimal(0nat) == seq![digit_char(0)]);
            }
        }
    }
}

/// The texts of `ws` one after another, with nothing between them.
pub open spec fn concat(ws: Seq<Seq<char>>) -> Seq<char>
    decreases ws.len(),
{
    if ws.len() == 0 {
        Seq::empty()
    } else {
        concat(ws.drop_last()) + ws.last()
    }
}

/// `s` with its spaces taken out.
pub open spec fn without_spaces(s: Seq<char>) -> Seq<char>
    decreases s.len(),
{
    if s.len() == 0 {
        Seq::empty()
    } else if s.last() == ' ' {
        without_spaces(s.drop_last())
    } else {
        without_spaces(s.drop_last()).push(s.last())
    }
}

/// Splitting a command line into words loses nothing but its spaces: the
/// words, put one after another, are the line without its spaces, and none
/// of them is empty or holds a space.
pub proof fn law_words_keep_the_text(s: Seq<char>)
    ensures
        concat(words(s)) == without_spaces(s),
        forall|i: int| 0 <= i < words(s).len() ==> is_word(#[trigger] words(s)[i]),
    decreases s.len(),
{
    lemma_words_shape(s);
    if s.len() > 0 {
        law_words_keep_the_text(s.drop_last());
        let prev = words(s.drop_last());
        let c = s.last();
        if c == ' ' {
        } else if s.len() > 1 && s[s.len() - 2] != ' ' {
            lemma_words_shape(s.drop_last());
            assert(s.drop_last().last() == s[s.len() - 2]);
            let u = prev.update(prev.len() - 1, prev.last().push(c));
            assert(u.drop_last() =~= prev.drop_last());
            assert(concat(u) == concat(u.drop_last()) + u.last());
            assert(concat(prev) == concat(prev.drop_last()) + prev.last());
            assert(concat(u) =~= concat(prev).push(c));
        } else {
            let u = prev.push(seq![c]);
            assert(u.drop_last() =~= prev);
            assert(concat(u) =~= concat(prev).push(c));
        }
    }
}

/// Updating the last of several texts by one more character adds that
/// character at the end of their join.
proof fn lemma_join_extend_last(ws: Seq<Seq<char>>, sep: Seq<char>, c: char)
    requires
        ws.len() > 0,
    ensures
        join_with(ws.update(ws.len() - 1, ws.last().push(c)), sep) == join_with(ws, sep).push(c),
{
    let u = ws.update(ws.len() - 1, ws.last().push(c));
    if ws.len() == 1 {
        assert(u[0] == ws[0].push(c));
    } else {
        assert(u.drop_last() =~= ws.drop_last());
        assert(join_with(u, sep) =~= join_with(ws, sep).push(c));
    }
}

/// Splitting at a separator is undone by joining with it: the pieces of a
/// text, joined with the separator, give the text back, and no piece holds
/// the separator.
pub proof fn law_pieces_join_back(s: Seq<char>, sep: char)
    ensures
        join_with(pieces(s, sep), seq![sep]) == s,
        forall|i: int| 0 <= i < pieces(s, sep).len() ==> !(#[trigger] pieces(s, sep)[i]).contains(sep),
    decreases s.len(),
{
    lemma_pieces_nonempty(s, sep);
    if s.len() == 0 {
        assert(pieces(s, sep) =~= seq![Seq::<char>::empty()]);
        assert(s =~= Seq::<char>::empty());
    } else {
        let p = pieces(s.drop_last(), sep);
        law_pieces_join_back(s.drop_last(), sep);
        lemma_pieces_nonempty(s.drop_last(), sep);
        let c = s.last();
        if c == sep {
            let q = p.push(Seq::<char>::empty());
            assert(q.drop_last() =~= p);
            assert(join_with(q, seq![sep]) == join_with(p, seq![sep]) + seq![sep] + Seq::<char>::empty());
            assert(join_with(q, seq![sep]) =~= s);
            assert forall|i: int| 0 <= i < q.len() implies !(#[trigger] q[i]).contains(sep) by {
                if i < p.len() {
                    assert(q[i] == p[i]);
                }
            }
        } else {
            let q = p.update(p.len() - 1, p.last().push(c));
            lemma_join_extend_last(p, seq![sep], c);
            assert(join_with(q, seq![sep]) =~= s);
            assert forall|i: int| 0 <= i < q.len() implies !(#[trigger] q[i]).contains(sep) by {
                if i < p.len() - 1 {
                    assert(q[i] == p[i]);
                } else {
                    let w = p.last();
                    assert(!w.contains(sep));
                    if w.push(c).contains(sep) {
                        let k = choose|k: int| 0 <= k < w.push(c).len() && w.push(c)[k] == sep;
                        assert(k < w.len());
                        assert(w[k] == sep);
                    }
                }
            }
        }
    }
}

/// Every character is whitespace.
pub open spec fn all_space(s: Seq<char>) -> bool {
    forall|i: int| 0 <= i < s.len() ==> is_space(#[trigger] s[i])
}

/// The characters skipped from `k` on are whitespace.
proof fn lemma_lead_spaces(s: Seq<char>, k: int)
    requires
        0 <= k <= s.len(),
    ensures
        forall|i: int| k <= i < lead(s, k) ==> is_space(#[trigger] s[i]),
    decreases s.len() - k,
{
    if k < s.len() && is_space(s[k]) {
        lemma_lead_spaces(s, k + 1);
    }
}

/// The characters skipped back from `j` are whitespace.
proof fn lemma_trail_spaces(s: Seq<char>, lo: int, j: int)
    requires
        0 <= lo <= j <= s.len(),
    ensures
        forall|i: int| trail(s, lo, j) <= i < j ==> is_space(#[trigger] s[i]),
    decreases j - lo,
{
    if lo < j && is_space(s[j - 1]) {
        lemma_trail_spaces(s, lo, j - 1);
    }
}

/// Trimming takes off exactly the whitespace at both ends: the text is
/// whitespace, then the trimmed text, then whitespace, and the trimmed
/// text, when it is not empty, starts and ends with a character that is no
/// whitespace.
pub proof fn law_trim_takes_the_ends(s: Seq<char>)
    ensures
        exists|a: Seq<char>, b: Seq<char>| all_space(a) && all_space(b) && s == a + trimmed(s) + b,
        trimmed(s).len() > 0 ==> !is_space(trimmed(s)[0]) && !is_space(trimmed(s).last()),
{
    let lo = lead(s, 0);
    lemma_lead_stops(s, 0);
    lemma_lead_spaces(s, 0);
    let hi = trail(s, lo, s.len() as int);
    lemma_trail_stops(s, lo, s.len() as int);
    lemma_trail_spaces(s, lo, s.len() as int);
    let a = s.take(lo);
    let b = s.skip(hi);
    let t = trimmed(s);
    assert(t == s.subrange(lo, hi));
    assert(all_space(a)) by {
        assert forall|i: int| 0 <= i < a.len() implies is_space(#[trigger] a[i]) by {
            assert(a[i] == s[i]);
        }
    }
    assert(all_space(b)) by {
        assert forall|i: int| 0 <= i < b.len() implies is_space(#[trigger] b[i]) by {
            assert(b[i] == s[hi + i]);
        }
    }
    assert(s =~= a + t + b);
    if t.len() > 0 {
        assert(t[0] == s[lo]);
        assert(t.last() == s[hi - 1]);
    }
}

/// The end of the first line lies at or after `k`; the first line holds a
/// line feed only as its last character.
proof fn lemma_line_end_shape(s: Seq<char>, k: int)
    requires
        0 <= k <= s.len(),
    ensures
        k <= line_end(s, k) <= s.len(),
        forall|i: int| k <= i < line_end(s, k) - 1 ==> #[trigger] s[i] != '\n',
        line_end(s, k) < s.len() ==> line_end(s, k) > k && s[line_end(s, k) - 1] == '\n',
        line_end(s, k) == s.len() && s.len() > k && s[s.len() - 1] != '\n' ==> forall|i: int|
            k <= i < s.len() ==> #[trigger] s[i] != '\n',
    decreases s.len() - k,
{
    if k < s.len() && s[k] != '\n' {
        lemma_line_end_shape(s, k + 1);
    }
}

/// Reading a line takes the input up to and including its first line feed
/// (or all of it when it has none) and leaves the rest: the line and the
/// rest make up the input, and the line holds a line feed only at its end.
pub proof fn law_first_line_splits_input(s: Seq<char>)
    ensures
        first_line(s) + after_first_line(s) == s,
        forall|i: int| 0 <= i < first_line(s).len() - 1 ==> #[trigger] first_line(s)[i] != '\n',
        s.contains('\n') ==> first_line(s).len() > 0 && first_line(s).last() == '\n',
        !s.contains('\n') ==> first_line(s) == s,
{
    lemma_line_end_shape(s, 0);
    let e = line_end(s, 0);
    assert(first_line(s) + after_first_line(s) =~= s);
    assert forall|i: int| 0 <= i < first_line(s).len() - 1 implies #[trigger] first_line(s)[i] != '\n' by {
        assert(first_line(s)[i] == s[i]);
    }
    if s.contains('\n') {
        let k = choose|k: int| 0 <= k < s.len() && s[k] == '\n';
        if e == s.len() {
            assert(k >= e - 1);
            assert(s[s.len() - 1] == '\n');
        }
        assert(first_line(s).last() == s[e - 1]);
    } else {
        if e < s.len() {
            assert(s[e - 1] == '\n');
        }
        assert(s.take(s.len() as int) =~= s);
    }
}

/// `pwd` prints the working directory: whenever it has a path to make
/// canonical, that path is the working directory, and it has one whenever
/// the working directory is known and `-p` is given or `PWD` is set.
pub proof fn law_pwd_uses_the_working_directory(
    physical: bool,
    cwd: Result<Seq<char>, Seq<char>>,
    pwd: Option<Seq<char>>,
)
    ensures
        start_path(physical, cwd, pwd) matches Some(p) ==> cwd == Ok::<Seq<char>, Seq<char>>(p),
        (cwd is Ok && (physical || pwd is Some)) ==> start_path(physical, cwd, pwd) is Some,
{
}

/// Keeping the entries whose flag is set works piece by piece: over two
/// runs of entries it keeps what each run keeps, in order; a single entry
/// is kept exactly when its flag is set.
pub proof fn law_kept_filters_in_order(
    e1: Seq<Seq<char>>,
    k1: Seq<bool>,
    e2: Seq<Seq<char>>,
    k2: Seq<bool>,
    x: Seq<char>,
)
    requires
        e1.len() == k1.len(),
        e2.len() == k2.len(),
    ensures
        kept(e1 + e2, k1 + k2) == kept(e1, k1) + kept(e2, k2),
        kept(seq![x], seq![true]) == seq![x],
        kept(seq![x], seq![false]) == Seq::<Seq<char>>::empty(),
    decreases e2.len(),
{
    let none = Seq::<Seq<char>>::empty();
    assert(seq![x].drop_last() =~= none);
    assert(seq![true].take(0) =~= Seq::<bool>::empty());
    assert(seq![false].take(0) =~= Seq::<bool>::empty());
    assert(kept(none, Seq::<bool>::empty()) == none);
    assert(kept(seq![x], seq![true]) == kept(none, Seq::<bool>::empty()).push(x));
    assert(kept(seq![x], seq![false]) == kept(none, Seq::<bool>::empty()));
    assert(none.push(x) =~= seq![x]);
    if e2.len() == 0 {
        assert(e1 + e2 =~= e1);
        assert(k1 + k2 =~= k1);
        assert(kept(e2, k2) =~= Seq::<Seq<char>>::empty());
        assert(kept(e1, k1) + kept(e2, k2) =~= kept(e1, k1));
    } else {
        let e = e1 + e2;
        let k = k1 + k2;
        let n = e.len();
        law_kept_filters_in_order(e1, k1, e2.drop_last(), k2.drop_last(), x);
        assert(e.drop_last() =~= e1 + e2.drop_last());
        assert(k.take(n - 1) =~= k1 + k2.drop_last());
        assert(k2.take(e2.len() - 1) =~= k2.drop_last());
        assert(k[n - 1] == k2[e2.len() - 1]);
        assert(e.last() == e2.last());
        assert(kept(e1 + e2, k1 + k2) =~= kept(e1, k1) + kept(e2, k2));
    }
}

/// The places looked at along `CDPATH` come piece by piece, in order: over
/// two runs of pieces, those of the first run then those of the second; an
/// empty piece gives none, and any other piece `p` gives `p` joined with
/// the name, then `p` joined with `.` and the name.
pub proof fn law_search_candidates_in_order(a: Seq<Seq<char>>, b: Seq<Seq<char>>, p: Seq<char>, name: Seq<char>)
    ensures
        search_candidates(a + b, name) == search_candidates(a, name) + search_candidates(b, name),
        p.len() == 0 ==> search_candidates(seq![p], name) == Seq::<Seq<char>>::empty(),
        p.len() > 0 ==> search_candidates(seq![p], name) == seq![pushed(p, name), pushed(pushed(p, seq!['.']), name)],
    decreases b.len(),
{
    let none = Seq::<Seq<char>>::empty();
    assert(seq![p].drop_last() =~= none);
    assert(seq![p].last() == p);
    assert(search_candidates(none, name) == none);
    assert(search_candidates(seq![p], name) == (if p.len() == 0 {
        search_candidates(none, name)
    } else {
        search_candidates(none, name) + seq![pushed(p, name), pushed(pushed(p, seq!['.']), name)]
    }));
    assert(none + seq![pushed(p, name), pushed(pushed(p, seq!['.']), name)]
        =~= seq![pushed(p, name), pushed(pushed(p, seq!['.']), name)]);
    if b.len() == 0 {
        assert(a + b =~= a);
        assert(search_candidates(a, name) + search_candidates(b, name) =~= search_candidates(a, name));
    } else {
        law_search_candidates_in_order(a, b.drop_last(), p, name);
        assert((a + b).drop_last() =~= a + b.drop_last());
        assert((a + b).last() == b.last());
        assert(search_candidates(a + b, name) =~= search_candidates(a, name) + search_candidates(b, name));
    }
}

/// The places where a script is looked for are the directories, in order,
/// each joined with the script's name.
pub proof fn law_script_candidates_in_order(dirs: Seq<Seq<char>>, name: Seq<char>)
    ensures
        script_candidates(dirs, name).len() == dirs.len(),
        forall|i: int| 0 <= i < dirs.len() ==> #[trigger] script_candidates(dirs, name)[i] == pushed(dirs[i], name),
{
}

/// A piece is free of carriage returns.
pub open spec fn no_cr(s: Seq<char>) -> bool {
    !s.contains('\r')
}

/// The lines of a text without carriage returns, joined with line feeds,
/// give the text back (with its final line feed, if it has one), and no
/// line holds a line feed.
pub proof fn law_lines_join_back(s: Seq<char>)
    requires
        no_cr(s),
    ensures
        forall|i: int| 0 <= i < lines(s).len() ==> !(#[trigger] lines(s)[i]).contains('\n'),
        join_with(lines(s), seq!['\n']) + (if s.len() > 0 && s.last() == '\n' { seq!['\n'] } else { Seq::<char>::empty() }) == s,
{
    let ps = pieces(s, '\n');
    law_pieces_join_back(s, '\n');
    lemma_pieces_nonempty(s, '\n');
    lemma_pieces_no_cr(s);
    let ended = ps.drop_last().map_values(|p: Seq<char>| crate::text::strip_cr(p));
    assert(ended =~= ps.drop_last()) by {
        assert forall|i: int| 0 <= i < ended.len() implies ended[i] == ps.drop_last()[i] by {
            assert(!ps[i].contains('\r'));
            if ps[i].len() > 0 && ps[i].last() == '\r' {
                assert(ps[i][ps[i].len() - 1] == '\r');
            }
        }
    }
    if ps.last().len() == 0 {
        assert(lines(s) == ps.drop_last());
        if ps.len() == 1 {
            assert(ps =~= seq![Seq::<char>::empty()]);
            assert(s.len() == 0);
            assert(join_with(lines(s), seq!['\n']) =~= Seq::<char>::empty());
        } else {
            assert(join_with(ps, seq!['\n']) == join_with(ps.drop_last(), seq!['\n']) + seq!['\n'] + ps.last());
            assert(s =~= join_with(ps.drop_last(), seq!['\n']) + seq!['\n']);
            assert(s.last() == '\n');
        }
    } else {
        assert(lines(s) =~= ps);
        if s.len() > 0 && s.last() == '\n' {
            if ps.len() == 1 {
                assert(s == ps[0]);
                assert(s[s.len() - 1] == '\n');
            } else {
                assert(join_with(ps, seq!['\n']) == join_with(ps.drop_last(), seq!['\n']) + seq!['\n'] + ps.last());
                assert(s.last() == ps.last().last());
                assert(ps.last()[ps.last().len() - 1] == '\n');
            }
        }
        assert(join_with(lines(s), seq!['\n']) + Seq::<char>::empty() =~= s);
    }
    assert forall|i: int| 0 <= i < lines(s).len() implies !(#[trigger] lines(s)[i]).contains('\n') by {
        assert(lines(s)[i] == ps[i]);
    }
}

/// The pieces of a text without carriage returns hold none either.
proof fn lemma_pieces_no_cr(s: Seq<char>)
    requires
        no_cr(s),
    ensures
        forall|i: int| 0 <= i < pieces(s, '\n').len() ==> !(#[trigger] pieces(s, '\n')[i]).contains('\r'),
    decreases s.len(),
{
    lemma_pieces_nonempty(s, '\n');
    if s.len() > 0 {
        let t = s.drop_last();
        assert(no_cr(t)) by {
            if t.contains('\r') {
                let k = choose|k: int| 0 <= k < t.len() && t[k] == '\r';
                assert(s[k] == '\r');
            }
        }
        lemma_pieces_no_cr(t);
        lemma_pieces_nonempty(t, '\n');
        let p = pieces(t, '\n');
        let c = s.last();
        assert(c != '\r') by {
            assert(s[s.len() - 1] == c);
        }
        if c != '\n' {
            let q = p.update(p.len() - 1, p.last().push(c));
            assert forall|i: int| 0 <= i < q.len() implies !(#[trigger] q[i]).contains('\r') by {
                if i < p.len() - 1 {
                    assert(q[i] == p[i]);
                } else {
                    let w = p.last();
                    assert(!w.contains('\r'));
                    if w.push(c).contains('\r') {
                        let k = choose|k: int| 0 <= k < w.push(c).len() && w.push(c)[k] == '\r';
                        assert(w[k] == '\r');
                    }
                }
            }
        } else {
            let q = p.push(Seq::<char>::empty());
            assert forall|i: int| 0 <= i < q.len() implies !(#[trigger] q[i]).contains('\r') by {
                if i < p.len() {
                    assert(q[i] == p[i]);
                }
            }
        }
    }
}

/// Where `cd`'s arguments point: without arguments, the home directory (an
/// error without one); `^` alone, `OLDPWD` (or `..` without it); otherwise
/// the arguments joined by single spaces, which split back into the
/// arguments, resolved as they are when the first starts with `/`, `\` or
/// `.` or when there is no `CDPATH`, and looked up along `CDPATH` first
/// otherwise.
pub proof fn law_cd_target(free: Seq<Seq<char>>, env: CdEnvView)
    ensures
        free.len() == 0 && env.home is None ==> target(free, env) == TargetView::NoHome,
        free.len() == 0 && env.home is Some ==> target(free, env) == TargetView::Direct(env.home->0),
        free == seq![seq!['^']] && env.oldpwd is Some ==> target(free, env) == TargetView::Direct(env.oldpwd->0),
        free == seq![seq!['^']] && env.oldpwd is None ==> target(free, env) == TargetView::Direct(seq!['.', '.']),
        free.len() > 0 && free != seq![seq!['^']] ==> match target(free, env) {
            TargetView::Resolve(p) => p == joined(free)
                && (env.cdpath is None || (free[0].len() > 0 && (free[0][0] == '/' || free[0][0] == '\\' || free[0][0] == '.'))),
            TargetView::Search(_, p) => p == joined(free) && env.cdpath is Some
                && !(free[0].len() > 0 && (free[0][0] == '/' || free[0][0] == '\\' || free[0][0] == '.')),
            _ => false,
        },
        free.len() > 0 && crate::text::all_words(free) ==> words(joined(free)) == free,
{
    if free.len() == 1 && free[0] == seq!['^'] {
        assert(free =~= seq![seq!['^']]);
    }
    if free == seq![seq!['^']] {
        assert(free.len() == 1 && free[0] == seq!['^']);
    }
    if free.len() > 0 && crate::text::all_words(free) {
        lemma_words_joined(free);
    }
}

/// With `-p`, `cd` walks nothing: the path is made canonical as it is,
/// with no place checked first.
pub proof fn law_cd_physical(cur: Seq<char>, env: CdEnvView)
    ensures
        resolution(true, cur, env) == ResolveView::Plan(Seq::<Seq<char>>::empty(), cur),
{
}

/// A line without words runs nothing and ends with 0.
pub proof fn law_empty_line()
    ensures
        run_words(Seq::<Seq<char>>::empty()) == DispatchView::Exit(0),
        run_words(words(Seq::<char>::empty())) == DispatchView::Exit(0),
{
    assert(words(Seq::<char>::empty()) =~= Seq::<Seq<char>>::empty());
}

/// The names of a path come piece by piece, in order: over two runs of
/// pieces, those of the first then those of the second; an empty piece and
/// `.` give none, and any other piece gives itself (as a name, or as `..`).
pub proof fn law_path_pieces_in_order(a: Seq<Seq<char>>, b: Seq<Seq<char>>, p: Seq<char>)
    ensures
        names(a + b) == names(a) + names(b),
        body_parts(a + b) == body_parts(a) + body_parts(b),
        (p.len() == 0 || p == seq!['.']) ==> names(seq![p]) == Seq::<Seq<char>>::empty()
            && body_parts(seq![p]) == Seq::<Part>::empty(),
        !(p.len() == 0 || p == seq!['.']) ==> names(seq![p]) == seq![p],
        p == seq!['.', '.'] ==> body_parts(seq![p]) == seq![Part::Parent],
        !(p.len() == 0 || p == seq!['.'] || p == seq!['.', '.']) ==> body_parts(seq![p]) == seq![Part::Name(p)],
    decreases b.len(),
{
    let none = Seq::<Seq<char>>::empty();
    assert(seq![p].drop_last() =~= none);
    assert(seq![p].last() == p);
    assert(names(none) == none);
    assert(body_parts(none) == Seq::<Part>::empty());
    assert(none.push(p) =~= seq![p]);
    assert(Seq::<Part>::empty().push(Part::Parent) =~= seq![Part::Parent]);
    assert(Seq::<Part>::empty().push(Part::Name(p)) =~= seq![Part::Name(p)]);
    if b.len() == 0 {
        assert(a + b =~= a);
        assert(names(a) + names(b) =~= names(a));
        assert(body_parts(a) + body_parts(b) =~= body_parts(a));
    } else {
        law_path_pieces_in_order(a, b.drop_last(), p);
        assert((a + b).drop_last() =~= a + b.drop_last());
        assert((a + b).last() == b.last());
        assert(names(a + b) =~= names(a) + names(b));
        assert(body_parts(a + b) =~= body_parts(a) + body_parts(b));
    }
}

/// Joining a path onto another: a path that starts at the root replaces
/// it; any other comes after it, with one `/` between them unless the
/// first is empty or already ends with `/`.
pub proof fn law_path_join(base: Seq<char>, p: Seq<char>)
    ensures
        starts_root(p) ==> pushed(base, p) == p,
        !starts_root(p) ==> pushed(base, p).take(base.len() as int) == base
            && pushed(base, p).skip(pushed(base, p).len() - p.len()) == p,
        !starts_root(p) && (base.len() == 0 || base.last() == '/') ==> pushed(base, p).len() == base.len() + p.len(),
        !starts_root(p) && base.len() > 0 && base.last() != '/' ==> pushed(base, p).len() == base.len() + p.len() + 1
            && pushed(base, p)[base.len() as int] == '/',
{
    if !starts_root(p) {
        let r = pushed(base, p);
        assert(r.take(base.len() as int) =~= base);
        assert(r.skip(r.len() - p.len()) =~= p);
    }
}

/// The characters that trimming and splitting treat as whitespace include
/// the ASCII blanks (tab, line feed, vertical tab, form feed, carriage
/// return and space) and no printable ASCII character.
pub proof fn law_ascii_whitespace(c: char)
    ensures
        (c == '\t' || c == '\n' || c == '\u{0b}' || c == '\u{0c}' || c == '\r' || c == ' ') ==> is_space(c),
        ('!' <= c && c <= '~') ==> !is_space(c),
{
}

/// How `source` starts from its parsed arguments: without a file name it
/// says so and ends with -1; with `-p` it looks for the first free argument
/// in the directories of the option's value, in order; otherwise it first
/// asks which `PATH` entries are directories, and remembers the working
/// directory and the file name for after.
pub proof fn law_source_start(p: ParsedView, path_var: Option<Seq<char>>, cwd: Result<Seq<char>, Seq<char>>)
    ensures
        p.free.len() == 0 ==> begin_step(p, path_var, cwd).1 == SourceActionView::Finish(-1i32)
            && begin_step(p, path_var, cwd).2 == encode_utf8(no_filename_message().push('\n')),
        p.free.len() > 0 && path_var is Some && cwd is Ok && p.present && p.value is Some ==> begin_step(
            p,
            path_var,
            cwd,
        ).1 == SourceActionView::CheckFiles(
            pieces(p.value->0, ':').map_values(|d: Seq<char>| pushed(d, p.free[0])),
        ),
        p.free.len() > 0 && path_var is Some && cwd is Ok && !p.present ==> begin_step(p, path_var, cwd)
            == (SourceStageView::Filtering(pieces(path_var->0, ':'), cwd->Ok_0, p.free[0]), SourceActionView::CheckDirs(
            pieces(path_var->0, ':'),
        ), Seq::<u8>::empty()),
{
    reveal_strlit("no filename provided");
    assert(!ends_with_newline(no_filename_message())) by {
        assert(no_filename_message().last() == 'd');
    }
}

} // verus!
