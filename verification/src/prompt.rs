//! The prompt: the last exit code, the time and the working directory
//! (relative to the home directory when inside it).
use vstd::prelude::*;
use vstd::utf8::encode_utf8;
use colored::Colorize;
use crate::path::{Component, Part, components, parts, part_views, seg_text, starts_root};
use crate::text::join_with;
use crate::shell::Shell;
use crate::ioface::{Streams, first_line, after_first_line};
use crate::text::trimmed;
use crate::error::Error;

verus! {

/// The escape sequence that ends a colored text.
pub open spec fn reset_code() -> Seq<char> {
    seq!['\x1b', '[', '0', 'm']
}

/// The escape sequence that starts a dimmed text.
pub open spec fn dim_code() -> Seq<char> {
    seq!['\x1b', '[', '2', 'm']
}

/// The escape sequence that starts black text on a white background.
pub open spec fn black_on_white_code() -> Seq<char> {
    seq!['\x1b', '[', '4', '7', ';', '3', '0', 'm']
}

/// `shown` is `text`, plain or wrapped in `style` and the reset sequence,
/// or followed by the reset sequence alone (what colored writes when its
/// colour setting is switched off while it writes).
pub open spec fn styled(text: Seq<char>, shown: Seq<char>, style: Seq<char>) -> bool {
    shown == text || shown == style + text + reset_code() || shown == text + reset_code()
}

/// colored's `Colorize::dimmed` on `text`, written with `Display`.
/// Whether colors are used depends on the environment and on whether
/// standard output is a terminal, so the contract claims only what holds
/// either way for a text without escape characters (which colored's
/// `escape_inner_reset_sequences` leaves as it is): the text plain, or the
/// text after `ESC[2m` and before `ESC[0m` (`compute_style` for the one
/// style `Dimmed`). colored reads its process-wide setting, which
/// `colored::control::set_override` can change at any time, once when
/// `Display` starts and again in `compute_style`; when it is switched off in
/// between, the text comes out followed by `ESC[0m` alone. Nothing ties the
/// outcome of one call to another, and nothing is said of a text that holds
/// an escape character.
#[verifier::external_body]
fn dimmed(text: &str) -> (res: String)
    ensures
        !text@.contains('\x1b') ==> styled(text@, res@, dim_code()),
{
    format!("{}", text.dimmed())
}

/// colored's `Colorize::black` then `Colorize::on_white` on `text`, written
/// with `Display`. As for [`dimmed`], the contract claims only that a text
/// without escape characters comes out plain, or after `ESC[47;30m` (the
/// background code then the foreground code) and before `ESC[0m`, or
/// followed by `ESC[0m` alone.
#[verifier::external_body]
fn black_on_white(text: &str) -> (res: String)
    ensures
        !text@.contains('\x1b') ==> styled(text@, res@, black_on_white_code()),
{
    format!("{}", text.black().on_white())
}

/// The components of `base` begin the components of `path` (what
/// `Path::starts_with` tests).
pub open spec fn parts_prefix(base: Seq<Part>, path: Seq<Part>) -> bool {
    base.len() <= path.len() && path.take(base.len() as int) == base
}

/// The text of a run of components pushed one after another onto an empty
/// path: their texts separated by `/`.
pub open spec fn parts_text(ps: Seq<Part>) -> Seq<char> {
    join_with(ps.map_values(|c: Part| seg_text(c)), seq!['/'])
}

/// The path that leads from `base` to `path` when the components of `base`
/// begin those of `path`: the remaining components of `path`, except that
/// an absolute `path` seen from an empty `base` is `path` itself.
pub open spec fn relative_text(path: Seq<char>, base: Seq<char>) -> Seq<char> {
    if parts(base).len() == 0 && starts_root(path) {
        path
    } else {
        parts_text(parts(path).skip(parts(base).len() as int))
    }
}

/// `pathdiff::diff_paths(path, base)` for a `base` whose components begin
/// those of `path`, written with `display`. The contract claims the path
/// that the source gives there: when `base` has no component (it is empty,
/// so not absolute) and `path` is absolute, `path` itself; otherwise both
/// are absolute or both relative, the loop skips the equal leading
/// components while nothing has been collected and then collects the rest
/// of `path`, and the collected components are pushed onto an empty path
/// (the rest holds only names and `..`, since a root or a leading `.` can
/// only come first).
#[verifier::external_body]
fn relative_path(path: &str, base: &str) -> (res: Option<String>)
    requires
        parts_prefix(parts(base@), parts(path@)),
    ensures
        res is Some,
        res matches Some(r) ==> r@ == relative_text(path@, base@),
{
    pathdiff::diff_paths(path, base).map(|p| p.display().to_string())
}

/// The decimal digit `d`.
pub open spec fn digit_char(d: int) -> char {
    seq!['0', '1', '2', '3', '4', '5', '6', '7', '8', '9'][d]
}

/// The decimal digits of `n`, without leading zeros (`0` is `0`).
pub open spec fn decimal(n: nat) -> Seq<char>
    decreases n,
{
    if n < 10 {
        seq![digit_char(n as int)]
    } else {
        decimal(n / 10).push(digit_char((n % 10) as int))
    }
}

/// `s` with `0` in front up to `width` characters.
pub open spec fn zero_padded(s: Seq<char>, width: nat) -> Seq<char>
    decreases width - s.len(),
{
    if s.len() >= width {
        s
    } else {
        zero_padded(seq!['0'] + s, width)
    }
}

/// The exit code as the prompt shows it: its absolute value in at least
/// three digits.
pub open spec fn code_text(exit_code: i32) -> Seq<char> {
    zero_padded(decimal((if exit_code < 0 { -(exit_code as int) } else { exit_code as int }) as nat), 3)
}

/// Writes the decimal digits of `n`.
pub fn decimal_text(n: u32) -> (res: String)
    ensures
        res@ == decimal(n as nat),
    decreases n,
{
    let digits = "0123456789";
    proof {
        reveal_strlit("0123456789");
        assert(digits@ =~= seq!['0', '1', '2', '3', '4', '5', '6', '7', '8', '9']);
    }
    let d = (n % 10) as usize;
    let last = digits.substring_char(d, d + 1);
    proof {
        assert(last@ =~= seq![digit_char(d as int)]);
    }
    if n < 10 {
        String::from_str(last)
    } else {
        let mut res = decimal_text(n / 10);
        res.append(last);
        res
    }
}

/// Puts `0` in front of `s` up to three characters.
pub fn pad_three(s: String) -> (res: String)
    ensures
        res@ == zero_padded(s@, 3),
{
    let zero = "0";
    proof {
        reveal_strlit("0");
        assert(zero@ =~= seq!['0']);
    }
    let mut s = s;
    let ghost orig = s@;
    while s.unicode_len() < 3
        invariant
            zero@ == seq!['0'],
            zero_padded(s@, 3) == zero_padded(orig, 3),
        decreases 3 - s@.len(),
    {
        let mut t = String::from_str(zero);
        t.append(s.as_str());
        s = t;
    }
    s
}

/// The text of an optional home directory.
pub open spec fn home_view(home: Option<&str>) -> Option<Seq<char>> {
    match home {
        Some(h) => Some(h@),
        None => None,
    }
}

/// Where the prompt says the shell is: inside the home directory, `~/`
/// followed by the path relative to it; elsewhere the directory itself.
pub open spec fn location(dir: Seq<char>, home: Option<Seq<char>>) -> Seq<char> {
    match home {
        Some(h) => if parts_prefix(parts(h), parts(dir)) {
            seq!['~', '/'] + relative_text(dir, h)
        } else {
            dir
        },
        None => dir,
    }
}

/// The prompt: the exit code and the time as shown, the location, and two
/// spaces, separated by single spaces.
pub open spec fn prompt_line(code: Seq<char>, clock: Seq<char>, loc: Seq<char>) -> Seq<char> {
    code + seq![' '] + clock + seq![' '] + loc + seq![' ', ' ']
}

/// The style of the exit code: dimmed for 0, black on white otherwise.
pub open spec fn code_style(exit_code: i32) -> Seq<char> {
    if exit_code == 0 {
        dim_code()
    } else {
        black_on_white_code()
    }
}

/// Tests two components for equality.
pub fn same_component(a: &Component, b: &Component) -> (res: bool)
    ensures
        res == (a@ == b@),
{
    match (a, b) {
        (Component::RootDir, Component::RootDir) => true,
        (Component::CurDir, Component::CurDir) => true,
        (Component::ParentDir, Component::ParentDir) => true,
        (Component::Normal(x), Component::Normal(y)) => *x == *y,
        _ => false,
    }
}

/// Whether the components of `base` begin those of `path`, as
/// `Path::starts_with` tests.
pub fn starts_with_path(path: &str, base: &str) -> (res: bool)
    ensures
        res == parts_prefix(parts(base@), parts(path@)),
{
    let pc = components(path);
    let bc = components(base);
    let ghost pv = part_views(pc@);
    let ghost bv = part_views(bc@);
    proof {
        assert(pv.len() == pc@.len());
        assert(bv.len() == bc@.len());
    }
    if bc.len() > pc.len() {
        return false;
    }
    let mut i: usize = 0;
    while i < bc.len()
        invariant
            i <= bc.len() <= pc.len(),
            pv == part_views(pc@),
            bv == part_views(bc@),
            pv == parts(path@),
            bv == parts(base@),
            pv.take(i as int) == bv.take(i as int),
        decreases bc.len() - i,
    {
        if !same_component(&pc[i], &bc[i]) {
            proof {
                assert(pv.take(bv.len() as int)[i as int] == pv[i as int]);
                assert(bv[i as int] == bc@[i as int]@);
                assert(pv[i as int] == pc@[i as int]@);
                assert(pv.take(bv.len() as int) != bv);
            }
            return false;
        }
        proof {
            assert(pv.take(i + 1) =~= pv.take(i as int).push(pv[i as int]));
            assert(bv.take(i + 1) =~= bv.take(i as int).push(bv[i as int]));
        }
        i = i + 1;
    }
    proof {
        assert(bv.take(bv.len() as int) =~= bv);
    }
    true
}

/// Where the prompt says the shell is, given the path from the home
/// directory to `dir` when `dir` lies inside it: `~/` followed by that path,
/// else `dir` itself.
pub fn home_relative(dir: &str, relative: Option<String>) -> (res: String)
    ensures
        res@ == match relative {
            Some(r) => seq!['~', '/'] + r@,
            None => dir@,
        },
{
    match relative {
        Some(rel) => {
            let tilde = "~/";
            proof {
                reveal_strlit("~/");
                assert(tilde@ =~= seq!['~', '/']);
            }
            let mut res = String::from_str(tilde);
            res.append(rel.as_str());
            res
        },
        None => String::from_str(dir),
    }
}

/// Where the prompt says the shell is.
pub fn prompt_location(dir: &str, home: Option<&str>) -> (res: String)
    ensures
        res@ == location(dir@, home_view(home)),
{
    match home {
        Some(h) => {
            if starts_with_path(dir, h) {
                let rel = relative_path(dir, h);
                home_relative(dir, rel)
            } else {
                String::from_str(dir)
            }
        },
        None => String::from_str(dir),
    }
}

/// Puts the prompt together from the exit code and the time as they are
/// shown, the working directory and the home directory.
pub fn prompt_line_of(code: &str, clock: &str, dir: &str, home: Option<&str>) -> (res: String)
    ensures
        res@ == prompt_line(code@, clock@, location(dir@, home_view(home))),
{
    let sp = " ";
    let two = "  ";
    proof {
        reveal_strlit(" ");
        reveal_strlit("  ");
        assert(sp@ =~= seq![' ']);
        assert(two@ =~= seq![' ', ' ']);
    }
    let loc = prompt_location(dir, home);
    let mut res = String::from_str(code);
    res.append(sp);
    res.append(clock);
    res.append(sp);
    res.append(loc.as_str());
    res.append(two);
    res
}

/// The exit code in at least three digits.
pub fn code_digits(exit_code: i32) -> (res: String)
    requires
        exit_code != i32::MIN,
    ensures
        res@ == code_text(exit_code),
{
    let magnitude: u32 = if exit_code < 0 { (-exit_code) as u32 } else { exit_code as u32 };
    pad_three(decimal_text(magnitude))
}

/// The digits of a number are no escape characters.
proof fn lemma_decimal_plain(n: nat)
    ensures
        !decimal(n).contains('\x1b'),
    decreases n,
{
    if n >= 10 {
        lemma_decimal_plain(n / 10);
    }
    if decimal(n).contains('\x1b') {
        let k = choose|k: int| 0 <= k < decimal(n).len() && decimal(n)[k] == '\x1b';
        if n >= 10 && k < decimal(n / 10).len() {
            assert(decimal(n / 10)[k] == '\x1b');
        }
    }
}

/// Zero padding adds no escape character.
proof fn lemma_padded_plain(s: Seq<char>, width: nat)
    requires
        !s.contains('\x1b'),
    ensures
        !zero_padded(s, width).contains('\x1b'),
    decreases width - s.len(),
{
    if s.len() < width {
        let t = seq!['0'] + s;
        if t.contains('\x1b') {
            let k = choose|k: int| 0 <= k < t.len() && t[k] == '\x1b';
            assert(s[k - 1] == '\x1b');
        }
        lemma_padded_plain(t, width);
    }
}

/// The prompt for the last exit code, the time (as text), the working
/// directory and the home directory: the code and the time are shown with
/// colored, each either plain or styled.
pub fn prompt_text(exit_code: i32, clock: &str, dir: &str, home: Option<&str>) -> (res: String)
    requires
        exit_code != i32::MIN,
    ensures
        exists|c: Seq<char>, t: Seq<char>|
            styled(code_text(exit_code), c, code_style(exit_code))
                && (!clock@.contains('\x1b') ==> styled(clock@, t, dim_code()))
                && res@ == #[trigger] prompt_line(c, t, location(dir@, home_view(home))),
{
    let digits = code_digits(exit_code);
    proof {
        let m: nat = (if exit_code < 0 { -(exit_code as int) } else { exit_code as int }) as nat;
        lemma_decimal_plain(m);
        lemma_padded_plain(decimal(m), 3);
    }
    let code = if exit_code == 0 { dimmed(digits.as_str()) } else { black_on_white(digits.as_str()) };
    let time = dimmed(clock);
    let res = prompt_line_of(code.as_str(), time.as_str(), dir, home);
    proof {
        assert(styled(code_text(exit_code), code@, code_style(exit_code)));
        assert(!clock@.contains('\x1b') ==> styled(clock@, time@, dim_code()));
        assert(res@ == prompt_line(code@, time@, location(dir@, home_view(home))));
    }
    res
}

impl Shell {
    /// Shows the prompt for the last exit code, the time, the working
    /// directory and the home directory, then reads one line of input and
    /// gives it without leading and trailing whitespace.
    pub fn prompt(&mut self, exit_code: i32, clock: &str, dir: &str, home: Option<&str>) -> (res: Result<String, Error>)
        requires
            exit_code != i32::MIN,
        ensures
            res matches Ok(line) && line@ == trimmed(first_line(old(self)@.input)),
            exists|c: Seq<char>, t: Seq<char>|
                styled(code_text(exit_code), c, code_style(exit_code))
                && (!clock@.contains('\x1b') ==> styled(clock@, t, dim_code()))
                && final(self)@ == (Streams {
                    input: after_first_line(old(self)@.input),
                    output: old(self)@.output + encode_utf8(#[trigger] prompt_line(c, t, location(dir@, home_view(home)))),
                    errors: old(self)@.errors,
                }),
    {
        let text = prompt_text(exit_code, clock, dir, home);
        let ghost loc = location(dir@, home_view(home));
        let ghost (c, t) = choose|c: Seq<char>, t: Seq<char>|
            styled(code_text(exit_code), c, code_style(exit_code))
                && (!clock@.contains('\x1b') ==> styled(clock@, t, dim_code()))
                && text@ == prompt_line(c, t, loc);
        let res = self.prompt_sigil(text);
        proof {
            assert(encode_utf8(text@) == encode_utf8(prompt_line(c, t, loc)));
        }
        res
    }
}

} // verus!
