//! Paths as text, read the way Unix path handling reads them: components,
//! joining, and the lexical walk that `cd` performs over `..` components.
use vstd::prelude::*;
use crate::text::{pieces, views, join_with, split_pieces, join_by};

verus! {

/// A path component, as a value of the specification.
pub enum Part {
    Root,
    Cur,
    Parent,
    Name(Seq<char>),
}

/// A path component: the root `/`, a leading `.`, `..`, or a name.
pub enum Component {
    RootDir,
    CurDir,
    ParentDir,
    Normal(String),
}

impl View for Component {
    type V = Part;

    open spec fn view(&self) -> Part {
        match self {
            Component::RootDir => Part::Root,
            Component::CurDir => Part::Cur,
            Component::ParentDir => Part::Parent,
            Component::Normal(n) => Part::Name(n@),
        }
    }
}

/// The views of a sequence of components.
pub open spec fn part_views(v: Seq<Component>) -> Seq<Part> {
    v.map_values(|c: Component| c@)
}

/// The path starts at the root.
pub open spec fn starts_root(s: Seq<char>) -> bool {
    s.len() > 0 && s[0] == '/'
}

/// The path starts with a `.` component (which only counts at the start of
/// a relative path).
pub open spec fn starts_cur(s: Seq<char>) -> bool {
    !starts_root(s) && s.len() >= 1 && s[0] == '.' && (s.len() == 1 || s[1] == '/')
}

/// A piece between separators that stands for no component.
pub open spec fn is_skipped(p: Seq<char>) -> bool {
    p.len() == 0 || p == seq!['.']
}

/// The component that a non-skipped piece stands for.
pub open spec fn part_of(p: Seq<char>) -> Part {
    if p == seq!['.', '.'] {
        Part::Parent
    } else {
        Part::Name(p)
    }
}

/// The components that the pieces of a path body stand for.
pub open spec fn body_parts(ps: Seq<Seq<char>>) -> Seq<Part>
    decreases ps.len(),
{
    if ps.len() == 0 {
        Seq::empty()
    } else {
        let prev = body_parts(ps.drop_last());
        if is_skipped(ps.last()) {
            prev
        } else {
            prev.push(part_of(ps.last()))
        }
    }
}

/// The pieces of a path body that stand for components, as text.
pub open spec fn names(ps: Seq<Seq<char>>) -> Seq<Seq<char>>
    decreases ps.len(),
{
    if ps.len() == 0 {
        Seq::empty()
    } else {
        let prev = names(ps.drop_last());
        if is_skipped(ps.last()) {
            prev
        } else {
            prev.push(ps.last())
        }
    }
}

/// The components of the path `s`: separators are `/`, repeated separators
/// and `.` pieces vanish except a `.` at the start of a relative path.
pub open spec fn parts(s: Seq<char>) -> Seq<Part> {
    let prefix = if starts_root(s) {
        seq![Part::Root]
    } else if starts_cur(s) {
        seq![Part::Cur]
    } else {
        Seq::empty()
    };
    prefix + body_parts(pieces(s, '/'))
}

/// Tests for the text `.`.
pub fn is_dot(p: &str) -> (res: bool)
    ensures
        res == (p@ == seq!['.']),
{
    let n = p.unicode_len();
    let r = n == 1 && p.get_char(0) == '.';
    proof {
        if n == 1 {
            assert(p@ =~= seq![p@[0]]);
        }
    }
    r
}

/// Tests for the text `..`.
pub fn is_dot_dot(p: &str) -> (res: bool)
    ensures
        res == (p@ == seq!['.', '.']),
{
    let n = p.unicode_len();
    let r = n == 2 && p.get_char(0) == '.' && p.get_char(1) == '.';
    proof {
        if n == 2 {
            assert(p@ =~= seq![p@[0], p@[1]]);
        }
    }
    r
}

/// Splits a path into its components.
pub fn components(path: &str) -> (res: Vec<Component>)
    ensures
        part_views(res@) == parts(path@),
{
    let n = path.unicode_len();
    let mut res: Vec<Component> = Vec::new();
    if n > 0 && path.get_char(0) == '/' {
        res.push(Component::RootDir);
    } else if n >= 1 && path.get_char(0) == '.' && (n == 1 || path.get_char(1) == '/') {
        res.push(Component::CurDir);
    }
    let ghost prefix = part_views(res@);
    let ps = split_pieces(path, '/');
    let mut i: usize = 0;
    while i < ps.len()
        invariant
            i <= ps.len(),
            views(ps@) == pieces(path@, '/'),
            part_views(res@) == prefix + body_parts(views(ps@).take(i as int)),
        decreases ps.len() - i,
    {
        let p = ps[i].as_str();
        let ghost before = res@;
        proof {
            let t = views(ps@).take(i + 1);
            assert(t.drop_last() =~= views(ps@).take(i as int));
            assert(t.last() == p@);
        }
        if p.unicode_len() == 0 || is_dot(p) {
            proof {
                assert(is_skipped(p@));
            }
        } else if is_dot_dot(p) {
            res.push(Component::ParentDir);
            proof {
                assert(part_views(res@) =~= part_views(before).push(Part::Parent));
            }
        } else {
            res.push(Component::Normal(String::from_str(p)));
            proof {
                assert(part_views(res@) =~= part_views(before).push(Part::Name(p@)));
            }
        }
        i = i + 1;
    }
    proof {
        assert(views(ps@).take(ps.len() as int) =~= views(ps@));
    }
    res
}

/// The names of a path: its components other than the root and a leading `.`,
/// as text.
pub fn path_names(path: &str) -> (res: Vec<String>)
    ensures
        views(res@) == names(pieces(path@, '/')),
{
    let ps = split_pieces(path, '/');
    let mut res: Vec<String> = Vec::new();
    let mut i: usize = 0;
    while i < ps.len()
        invariant
            i <= ps.len(),
            views(ps@) == pieces(path@, '/'),
            views(res@) == names(views(ps@).take(i as int)),
        decreases ps.len() - i,
    {
        let p = ps[i].as_str();
        let ghost before = res@;
        proof {
            let t = views(ps@).take(i + 1);
            assert(t.drop_last() =~= views(ps@).take(i as int));
            assert(t.last() == p@);
        }
        if !(p.unicode_len() == 0 || is_dot(p)) {
            res.push(String::from_str(p));
            proof {
                assert(views(res@) =~= views(before).push(p@));
            }
        }
        i = i + 1;
    }
    proof {
        assert(views(ps@).take(ps.len() as int) =~= views(ps@));
    }
    res
}

/// `base` with `p` pushed onto it, as `PathBuf::push` does: an absolute `p`
/// replaces `base`; otherwise a separator goes between them unless `base`
/// is empty or already ends in one.
pub open spec fn pushed(base: Seq<char>, p: Seq<char>) -> Seq<char> {
    if starts_root(p) {
        p
    } else if base.len() > 0 && base.last() != '/' {
        base + seq!['/'] + p
    } else {
        base + p
    }
}

/// Pushes `p` onto `base`.
pub fn path_join(base: &str, p: &str) -> (res: String)
    ensures
        res@ == pushed(base@, p@),
{
    let pn = p.unicode_len();
    if pn > 0 && p.get_char(0) == '/' {
        return String::from_str(p);
    }
    let bn = base.unicode_len();
    let mut res = String::from_str(base);
    if bn > 0 && base.get_char(bn - 1) != '/' {
        let sep = "/";
        proof {
            reveal_strlit("/");
            assert(sep@ =~= seq!['/']);
        }
        res.append(sep);
    }
    res.append(p);
    proof {
        if bn > 0 {
            assert(base@.last() == base@[bn - 1]);
        }
    }
    res
}

/// The text of a path with the given root and names.
pub open spec fn render(absolute: bool, segs: Seq<Seq<char>>) -> Seq<char> {
    (if absolute {
        seq!['/']
    } else {
        Seq::empty()
    }) + join_with(segs, seq!['/'])
}

/// Writes out a path with the given root and names.
pub fn render_path(absolute: bool, segs: &Vec<String>) -> (res: String)
    ensures
        res@ == render(absolute, views(segs@)),
{
    let sep = "/";
    proof {
        reveal_strlit("/");
        assert(sep@ =~= seq!['/']);
    }
    let body = join_by(segs, sep);
    if absolute {
        let mut res = String::from_str(sep);
        res.append(body.as_str());
        res
    } else {
        proof {
            assert(Seq::<char>::empty() + body@ =~= body@);
        }
        body
    }
}

/// The state of the lexical walk over a path's components: where the walk
/// stands, whether the last component pushed keeps a following `..` from
/// popping (the root or a `..`), and the places that had to be directories.
pub struct Walk {
    pub absolute: bool,
    pub segs: Seq<Seq<char>>,
    pub blocked: bool,
    pub checks: Seq<Seq<char>>,
}

/// The text that a pushed component adds.
pub open spec fn seg_text(c: Part) -> Seq<char> {
    match c {
        Part::Name(n) => n,
        Part::Parent => seq!['.', '.'],
        Part::Cur => seq!['.'],
        Part::Root => seq!['/'],
    }
}

/// The root and `..` keep a following `..` from popping.
pub open spec fn blocks(c: Part) -> bool {
    c is Root || c is Parent
}

/// One step of the walk: a `..` after a popping component checks that the
/// current place is a directory and goes up (the blocking state stays as it
/// was); any other component is pushed.
pub open spec fn step(w: Walk, c: Part) -> Walk {
    if c is Parent && !w.blocked {
        Walk {
            absolute: w.absolute,
            segs: if w.segs.len() > 0 {
                w.segs.drop_last()
            } else {
                w.segs
            },
            blocked: w.blocked,
            checks: w.checks.push(render(w.absolute, w.segs)),
        }
    } else {
        Walk {
            absolute: w.absolute,
            segs: w.segs.push(seg_text(c)),
            blocked: blocks(c),
            checks: w.checks,
        }
    }
}

/// The walk over the components `cs`, in order.
pub open spec fn walk(w: Walk, cs: Seq<Part>) -> Walk
    decreases cs.len(),
{
    if cs.len() == 0 {
        w
    } else {
        walk(step(w, cs[0]), cs.drop_first())
    }
}

/// Where the walk starts: the working directory joined with the first component.
pub open spec fn start(first: Part, cwd: Seq<char>) -> Walk {
    let base = names(pieces(cwd, '/'));
    if first is Root {
        Walk { absolute: true, segs: Seq::empty(), blocked: true, checks: Seq::empty() }
    } else {
        Walk {
            absolute: starts_root(cwd),
            segs: if first is Cur {
                base
            } else {
                base.push(seg_text(first))
            },
            blocked: blocks(first),
            checks: Seq::empty(),
        }
    }
}

/// The lexical walk of `cur` from the working directory `cwd`.
pub open spec fn lexical_walk(cur: Seq<char>, cwd: Seq<char>) -> Walk {
    let cs = parts(cur);
    walk(start(cs[0], cwd), cs.drop_first())
}

/// The place where the lexical walk of `cur` ends.
pub open spec fn walk_end(cur: Seq<char>, cwd: Seq<char>) -> Seq<char> {
    let w = lexical_walk(cur, cwd);
    render(w.absolute, w.segs)
}

/// Walks `cur` from `cwd` component by component, resolving each `..` that
/// follows a name by going up: gives the places that must be directories for
/// the walk to be valid, in order, and the place reached.
pub fn lexical_plan(cur: &str, cwd: &str) -> (res: (Vec<String>, String))
    requires
        parts(cur@).len() > 0,
    ensures
        views(res.0@) == lexical_walk(cur@, cwd@).checks,
        res.1@ == walk_end(cur@, cwd@),
{
    let cs = components(cur);
    let ghost pv = part_views(cs@);
    let mut segs: Vec<String> = path_names(cwd);
    let mut absolute: bool = cwd.unicode_len() > 0 && cwd.get_char(0) == '/';
    let mut blocked: bool;
    match &cs[0] {
        Component::RootDir => {
            segs = Vec::new();
            absolute = true;
            blocked = true;
        },
        Component::CurDir => {
            blocked = false;
        },
        Component::ParentDir => {
            segs.push(String::from_str(".."));
            blocked = true;
        },
        Component::Normal(n) => {
            segs.push(n.clone());
            blocked = false;
        },
    }
    let mut checks: Vec<String> = Vec::new();
    proof {
        reveal_strlit("..");
        assert(".."@ =~= seq!['.', '.']);
        let w0 = start(pv[0], cwd@);
        assert(views(segs@) =~= w0.segs);
        assert(absolute == w0.absolute);
        assert(blocked == w0.blocked);
        assert(views(checks@) =~= w0.checks);
        assert(Walk { absolute, segs: views(segs@), blocked, checks: views(checks@) } == w0);
        assert(pv.skip(1) =~= pv.drop_first());
    }
    let mut i: usize = 1;
    while i < cs.len()
        invariant
            1 <= i <= cs.len(),
            pv == part_views(cs@),
            pv == parts(cur@),
            walk(Walk { absolute, segs: views(segs@), blocked, checks: views(checks@) }, pv.skip(i as int))
                == lexical_walk(cur@, cwd@),
        decreases cs.len() - i,
    {
        let ghost w = Walk { absolute, segs: views(segs@), blocked, checks: views(checks@) };
        proof {
            assert(pv.skip(i as int)[0] == pv[i as int]);
            assert(pv.skip(i as int).drop_first() =~= pv.skip(i + 1));
        }
        let is_parent = match &cs[i] { Component::ParentDir => true, _ => false };
        if is_parent && !blocked {
            let here = render_path(absolute, &segs);
            checks.push(here);
            if segs.len() > 0 {
                segs.pop();
            }
            proof {
                let w2 = step(w, pv[i as int]);
                assert(views(segs@) =~= w2.segs);
                assert(views(checks@) =~= w2.checks);
            }
        } else {
            match &cs[i] {
                Component::RootDir => {
                    segs.push(String::from_str("/"));
                    blocked = true;
                },
                Component::CurDir => {
                    segs.push(String::from_str("."));
                    blocked = false;
                },
                Component::ParentDir => {
                    segs.push(String::from_str(".."));
                    blocked = true;
                },
                Component::Normal(n) => {
                    segs.push(n.clone());
                    blocked = false;
                },
            }
            proof {
                reveal_strlit("/");
                reveal_strlit(".");
                reveal_strlit("..");
                assert("/"@ =~= seq!['/']);
                assert("."@ =~= seq!['.']);
                assert(".."@ =~= seq!['.', '.']);
                let w2 = step(w, pv[i as int]);
                assert(views(segs@) =~= w2.segs);
                assert(blocked == w2.blocked);
            }
        }
        i = i + 1;
    }
    proof {
        assert(pv.skip(i as int) =~= Seq::<Part>::empty());
    }
    let path = render_path(absolute, &segs);
    (checks, path)
}

} // verus!
