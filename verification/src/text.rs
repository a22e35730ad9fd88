//! Text utilities: splitting text into words, pieces and lines, joining
//! words back, and trimming whitespace.
use vstd::prelude::*;

verus! {

/// The views of a sequence of strings.
pub open spec fn views(v: Seq<String>) -> Seq<Seq<char>> {
    v.map_values(|w: String| w@)
}

/// The words of `s`: the maximal runs of characters other than `' '`,
/// in order. Defined on the prefix so that it follows a left-to-right scan.
pub open spec fn words(s: Seq<char>) -> Seq<Seq<char>>
    decreases s.len(),
{
    if s.len() == 0 {
        Seq::empty()
    } else {
        let prev = words(s.drop_last());
        let c = s.last();
        if c == ' ' {
            prev
        } else if s.len() > 1 && s[s.len() - 2] != ' ' {
            prev.update(prev.len() - 1, prev.last().push(c))
        } else {
            prev.push(seq![c])
        }
    }
}

/// A word is non-empty and holds no space.
pub open spec fn is_word(w: Seq<char>) -> bool {
    w.len() > 0 && !w.contains(' ')
}

/// Every element of `ws` is a word.
pub open spec fn all_words(ws: Seq<Seq<char>>) -> bool {
    forall|i: int| 0 <= i < ws.len() ==> is_word(#[trigger] ws[i])
}

/// The elements of `ws` with `sep` between each two of them.
pub open spec fn join_with(ws: Seq<Seq<char>>, sep: Seq<char>) -> Seq<char>
    decreases ws.len(),
{
    if ws.len() == 0 {
        Seq::empty()
    } else if ws.len() == 1 {
        ws[0]
    } else {
        join_with(ws.drop_last(), sep) + sep + ws.last()
    }
}

/// The elements of `ws` separated by single spaces.
pub open spec fn joined(ws: Seq<Seq<char>>) -> Seq<char> {
    join_with(ws, seq![' '])
}

/// Appending a character that is no space to a space-free text keeps it space-free.
proof fn lemma_push_no_space(w: Seq<char>, c: char)
    requires
        !w.contains(' '),
        c != ' ',
    ensures
        !w.push(c).contains(' '),
{
    if w.push(c).contains(' ') {
        let k = choose|k: int| 0 <= k < w.push(c).len() && w.push(c)[k] == ' ';
        if k < w.len() {
            assert(w[k] == ' ');
        }
    }
}

/// The words of a text are words, and a text that ends in a character other
/// than a space has that character at the end of its last word.
pub proof fn lemma_words_shape(s: Seq<char>)
    ensures
        all_words(words(s)),
        (s.len() > 0 && s.last() != ' ') ==> words(s).len() > 0 && words(s).last().last()
            == s.last(),
    decreases s.len(),
{
    if s.len() > 0 {
        lemma_words_shape(s.drop_last());
        let prev = words(s.drop_last());
        let c = s.last();
        if c == ' ' {
        } else if s.len() > 1 && s[s.len() - 2] != ' ' {
            assert(s.drop_last().last() == s[s.len() - 2]);
            assert(is_word(prev[prev.len() - 1]));
            lemma_push_no_space(prev.last(), c);
            assert forall|i: int| 0 <= i < words(s).len() implies is_word(#[trigger] words(s)[i]) by {
                if i < prev.len() - 1 {
                    assert(words(s)[i] == prev[i]);
                }
            }
        } else {
            lemma_push_no_space(Seq::empty(), c);
            assert(Seq::<char>::empty().push(c) =~= seq![c]);
            assert forall|i: int| 0 <= i < words(s).len() implies is_word(#[trigger] words(s)[i]) by {
                if i < prev.len() {
                    assert(words(s)[i] == prev[i]);
                }
            }
        }
    }
}

/// A single word splits into itself.
pub proof fn lemma_words_of_word(w: Seq<char>)
    requires
        is_word(w),
    ensures
        words(w) == seq![w],
    decreases w.len(),
{
    let init = w.drop_last();
    assert(!init.contains(' ')) by {
        if init.contains(' ') {
            let k = choose|k: int| 0 <= k < init.len() && init[k] == ' ';
            assert(w[k] == ' ');
        }
    }
    assert(w.last() != ' ') by {
        assert(w[w.len() - 1] == w.last());
    }
    if init.len() == 0 {
        assert(words(init) =~= Seq::<Seq<char>>::empty());
        assert(w =~= seq![w.last()]);
    } else {
        lemma_words_of_word(init);
        assert(w[w.len() - 2] == init.last());
        assert(init.last() != ' ') by {
            assert(init[init.len() - 1] == init.last());
        }
        assert(init.push(w.last()) =~= w);
        assert(words(w) =~= seq![w]);
    }
}

/// A space separates the words on its two sides.
pub proof fn lemma_words_space_split(a: Seq<char>, b: Seq<char>)
    ensures
        words(a + seq![' '] + b) == words(a) + words(b),
    decreases b.len(),
{
    let s = a + seq![' '] + b;
    if b.len() == 0 {
        assert(s.drop_last() =~= a);
        assert(words(b) =~= Seq::<Seq<char>>::empty());
        assert(words(a) + words(b) =~= words(a));
    } else {
        let b0 = b.drop_last();
        lemma_words_space_split(a, b0);
        assert(s.drop_last() =~= a + seq![' '] + b0);
        assert(s.last() == b.last());
        let c = b.last();
        if c == ' ' {
        } else {
            assert(s[s.len() - 2] == (if b0.len() > 0 { b0.last() } else { ' ' }));
            if b0.len() > 0 && b0.last() != ' ' {
                assert(b[b.len() - 2] == b0.last());
                lemma_words_shape(b0);
                assert(words(s) =~= words(a) + words(b));
            } else {
                if b0.len() > 0 {
                    assert(b[b.len() - 2] == b0.last());
                }
                assert(words(s) =~= words(a) + words(b));
            }
        }
    }
}

/// Splitting words joined by single spaces gives the words back.
pub proof fn lemma_words_joined(ws: Seq<Seq<char>>)
    requires
        all_words(ws),
    ensures
        words(joined(ws)) == ws,
    decreases ws.len(),
{
    if ws.len() == 0 {
    } else if ws.len() == 1 {
        assert(is_word(ws[0]));
        lemma_words_of_word(ws[0]);
        assert(ws =~= seq![ws[0]]);
    } else {
        let init = ws.drop_last();
        assert(all_words(init)) by {
            assert forall|i: int| 0 <= i < init.len() implies is_word(#[trigger] init[i]) by {
                assert(init[i] == ws[i]);
            }
        }
        lemma_words_joined(init);
        assert(is_word(ws[ws.len() - 1]));
        lemma_words_of_word(ws.last());
        lemma_words_space_split(joined(init), ws.last());
        assert(ws =~= init + seq![ws.last()]);
    }
}

/// Splits `s` into its words, as `str::split(' ')` followed by dropping the
/// empty pieces does.
pub fn split_words(s: &str) -> (res: Vec<String>)
    ensures
        views(res@) == words(s@),
{
    let n = s.unicode_len();
    let mut res: Vec<String> = Vec::new();
    let mut start: usize = 0;
    let mut i: usize = 0;
    while i < n
        invariant
            n == s@.len(),
            start <= i <= n,
            (start < i) == (i > 0 && s@[i - 1] != ' '),
            words(s@.take(i as int)) == views(res@) + (if start < i {
                seq![s@.subrange(start as int, i as int)]
            } else {
                Seq::<Seq<char>>::empty()
            }),
        decreases n - i,
    {
        let c = s.get_char(i);
        proof {
            assert(s@.take(i + 1).drop_last() =~= s@.take(i as int));
            assert(s@.take(i + 1).last() == c);
            if i > 0 {
                assert(s@.take(i + 1)[i - 1] == s@[i - 1]);
            }
        }
        if c == ' ' {
            if start < i {
                let w = s.substring_char(start, i);
                let ghost before = res@;
                res.push(String::from_str(w));
                proof {
                    assert(views(res@) =~= views(before) + seq![s@.subrange(start as int, i as int)]);
                }
            }
            start = i + 1;
            proof {
                assert(views(res@) + Seq::<Seq<char>>::empty() =~= views(res@));
            }
        } else {
            proof {
                if start < i {
                    assert(s@.subrange(start as int, i as int).push(c) =~= s@.subrange(
                        start as int,
                        i + 1,
                    ));
                    let prev = words(s@.take(i as int));
                    assert(prev.len() == views(res@).len() + 1);
                    assert(words(s@.take(i + 1)) =~= views(res@) + seq![
                        s@.subrange(start as int, i + 1),
                    ]);
                } else {
                    assert(s@.subrange(i as int, i + 1) =~= seq![c]);
                    assert(words(s@.take(i + 1)) =~= views(res@) + seq![
                        s@.subrange(start as int, i + 1),
                    ]);
                }
            }
        }
        i = i + 1;
    }
    if start < n {
        let w = s.substring_char(start, n);
        let ghost before = res@;
        res.push(String::from_str(w));
        proof {
            assert(views(res@) =~= views(before) + seq![s@.subrange(start as int, n as int)]);
        }
    }
    proof {
        assert(s@.take(n as int) =~= s@);
        if start >= n {
            assert(views(res@) + Seq::<Seq<char>>::empty() =~= views(res@));
        }
    }
    res
}

/// Joins `ws` with `sep` between each two of them, as `[String]::join(sep)` does.
pub fn join_by(ws: &Vec<String>, sep: &str) -> (res: String)
    ensures
        res@ == join_with(views(ws@), sep@),
{
    let mut res = String::new();
    let mut i: usize = 0;
    while i < ws.len()
        invariant
            i <= ws.len(),
            res@ == join_with(views(ws@).take(i as int), sep@),
        decreases ws.len() - i,
    {
        let ghost before = res@;
        if i > 0 {
            res.append(sep);
        }
        res.append(ws[i].as_str());
        proof {
            let t = views(ws@).take(i + 1);
            assert(t.drop_last() =~= views(ws@).take(i as int));
            assert(t.last() == ws@[i as int]@);
            if i == 0 {
                assert(before =~= Seq::<char>::empty());
                assert(res@ =~= t[0]);
            } else {
                assert(res@ =~= join_with(t.drop_last(), sep@) + sep@ + t.last());
            }
        }
        i = i + 1;
    }
    proof {
        assert(views(ws@).take(ws.len() as int) =~= views(ws@));
    }
    res
}

/// Joins `ws` with single spaces between them, as `[String]::join(" ")` does.
pub fn join_words(ws: &Vec<String>) -> (res: String)
    ensures
        res@ == joined(views(ws@)),
{
    let sep = " ";
    proof {
        reveal_strlit(" ");
        assert(sep@ =~= seq![' ']);
    }
    join_by(ws, sep)
}

/// The pieces of `s` between occurrences of `sep`, empty pieces included,
/// as `str::split(sep)` yields them.
pub open spec fn pieces(s: Seq<char>, sep: char) -> Seq<Seq<char>>
    decreases s.len(),
{
    if s.len() == 0 {
        seq![Seq::empty()]
    } else {
        let p = pieces(s.drop_last(), sep);
        if s.last() == sep {
            p.push(Seq::empty())
        } else {
            p.update(p.len() - 1, p.last().push(s.last()))
        }
    }
}

/// There is always at least one piece.
pub proof fn lemma_pieces_nonempty(s: Seq<char>, sep: char)
    ensures
        pieces(s, sep).len() >= 1,
    decreases s.len(),
{
    if s.len() > 0 {
        lemma_pieces_nonempty(s.drop_last(), sep);
    }
}

/// Splits `s` at every `sep`, keeping empty pieces.
pub fn split_pieces(s: &str, sep: char) -> (res: Vec<String>)
    ensures
        views(res@) == pieces(s@, sep),
{
    let n = s.unicode_len();
    let mut res: Vec<String> = Vec::new();
    let mut start: usize = 0;
    let mut i: usize = 0;
    proof {
        assert(s@.take(0) =~= Seq::<char>::empty());
        assert(views(res@) + seq![s@.subrange(0, 0)] =~= seq![Seq::<char>::empty()]);
    }
    while i < n
        invariant
            n == s@.len(),
            start <= i <= n,
            pieces(s@.take(i as int), sep) == views(res@) + seq![s@.subrange(start as int, i as int)],
        decreases n - i,
    {
        let c = s.get_char(i);
        proof {
            assert(s@.take(i + 1).drop_last() =~= s@.take(i as int));
            assert(s@.take(i + 1).last() == c);
        }
        if c == sep {
            let w = s.substring_char(start, i);
            let ghost before = res@;
            res.push(String::from_str(w));
            proof {
                assert(views(res@) =~= views(before) + seq![s@.subrange(start as int, i as int)]);
                assert(s@.subrange(i + 1, i + 1) =~= Seq::<char>::empty());
                assert(pieces(s@.take(i + 1), sep) =~= views(res@) + seq![s@.subrange(i + 1, i + 1)]);
            }
            start = i + 1;
        } else {
            proof {
                assert(s@.subrange(start as int, i as int).push(c) =~= s@.subrange(start as int, i + 1));
                assert(pieces(s@.take(i + 1), sep) =~= views(res@) + seq![s@.subrange(start as int, i + 1)]);
            }
        }
        i = i + 1;
    }
    let w = s.substring_char(start, n);
    let ghost before = res@;
    res.push(String::from_str(w));
    proof {
        assert(s@.take(n as int) =~= s@);
        assert(views(res@) =~= views(before) + seq![s@.subrange(start as int, n as int)]);
    }
    res
}

/// A piece that ended at a line feed loses one carriage return before it.
pub open spec fn strip_cr(p: Seq<char>) -> Seq<char> {
    if p.len() > 0 && p.last() == '\r' {
        p.drop_last()
    } else {
        p
    }
}

/// The lines of `s`, as `str::lines` yields them: the text is cut at each
/// line feed, a carriage return just before a line feed is dropped, and a
/// final empty piece (after the last line feed, or of an empty text) is no line.
pub open spec fn lines(s: Seq<char>) -> Seq<Seq<char>> {
    let ps = pieces(s, '\n');
    let ended = ps.drop_last().map_values(|p: Seq<char>| strip_cr(p));
    if ps.last().len() == 0 {
        ended
    } else {
        ended.push(ps.last())
    }
}

/// Splits `s` into its lines.
pub fn split_lines(s: &str) -> (res: Vec<String>)
    ensures
        views(res@) == lines(s@),
{
    let ps = split_pieces(s, '\n');
    proof {
        lemma_pieces_nonempty(s@, '\n');
    }
    let count = ps.len();
    let mut res: Vec<String> = Vec::new();
    let mut i: usize = 0;
    while i + 1 < count
        invariant
            count == ps.len(),
            count >= 1,
            views(ps@) == pieces(s@, '\n'),
            i + 1 <= count,
            views(res@) == views(ps@).take(i as int).map_values(|p: Seq<char>| strip_cr(p)),
        decreases count - i,
    {
        let p = ps[i].as_str();
        let len = p.unicode_len();
        let ghost before = res@;
        if len > 0 && p.get_char(len - 1) == '\r' {
            res.push(String::from_str(p.substring_char(0, len - 1)));
            proof {
                assert(p@.subrange(0, len - 1) =~= p@.drop_last());
                assert(p@.last() == p@[len - 1]);
            }
        } else {
            res.push(String::from_str(p));
            proof {
                if len > 0 {
                    assert(p@.last() == p@[len - 1]);
                }
            }
        }
        proof {
            assert(res@.last()@ == strip_cr(p@));
            assert(views(res@) =~= views(before).push(strip_cr(p@)));
        }
        proof {
            assert(views(ps@)[i as int] == ps@[i as int]@);
            assert(views(res@) =~= views(ps@).take(i + 1).map_values(|p: Seq<char>| strip_cr(p)));
        }
        i = i + 1;
    }
    let last = ps[count - 1].as_str();
    proof {
        assert(views(ps@).drop_last() =~= views(ps@).take(i as int));
        assert(views(ps@)[count - 1] == ps@[count - 1]@);
    }
    if last.unicode_len() > 0 {
        let ghost before = res@;
        res.push(String::from_str(last));
        proof {
            assert(views(res@) =~= views(before).push(last@));
        }
    }
    res
}

/// The characters that Unicode gives the White_Space property, which is
/// what `char::is_whitespace` tests.
pub open spec fn is_space(c: char) -> bool {
    let v = c as u32;
    (0x9 <= v <= 0xd) || v == 0x20 || v == 0x85 || v == 0xa0 || v == 0x1680 || (0x2000 <= v
        <= 0x200a) || v == 0x2028 || v == 0x2029 || v == 0x202f || v == 0x205f || v == 0x3000
}

/// Tests a character for Unicode whitespace.
pub fn char_is_space(c: char) -> (res: bool)
    ensures
        res == is_space(c),
{
    let v = c as u32;
    (0x9 <= v && v <= 0xd) || v == 0x20 || v == 0x85 || v == 0xa0 || v == 0x1680 || (0x2000 <= v
        && v <= 0x200a) || v == 0x2028 || v == 0x2029 || v == 0x202f || v == 0x205f || v == 0x3000
}

/// The index of the first character at or after `k` that is no whitespace
/// (or the length of `s`).
pub open spec fn lead(s: Seq<char>, k: int) -> int
    decreases s.len() - k,
{
    if 0 <= k < s.len() && is_space(s[k]) {
        lead(s, k + 1)
    } else {
        k
    }
}

/// The end of the last character before `j`, and at or after `lo`, that is
/// no whitespace (or `lo`).
pub open spec fn trail(s: Seq<char>, lo: int, j: int) -> int
    decreases j - lo,
{
    if lo < j && j <= s.len() && is_space(s[j - 1]) {
        trail(s, lo, j - 1)
    } else {
        j
    }
}

/// `s` without leading and trailing whitespace, as `str::trim` gives it.
pub open spec fn trimmed(s: Seq<char>) -> Seq<char> {
    let lo = lead(s, 0);
    s.subrange(lo, trail(s, lo, s.len() as int))
}

/// Skipping leading whitespace stops at a character that is no whitespace,
/// or at the end.
pub proof fn lemma_lead_stops(s: Seq<char>, k: int)
    requires
        0 <= k <= s.len(),
    ensures
        k <= lead(s, k) <= s.len(),
        lead(s, k) < s.len() ==> !is_space(s[lead(s, k)]),
    decreases s.len() - k,
{
    if k < s.len() && is_space(s[k]) {
        lemma_lead_stops(s, k + 1);
    }
}

/// Skipping trailing whitespace stops after a character that is no
/// whitespace, or at the lower bound.
pub proof fn lemma_trail_stops(s: Seq<char>, lo: int, j: int)
    requires
        0 <= lo <= j <= s.len(),
    ensures
        lo <= trail(s, lo, j) <= j,
        trail(s, lo, j) > lo ==> !is_space(s[trail(s, lo, j) - 1]),
    decreases j - lo,
{
    if lo < j && is_space(s[j - 1]) {
        lemma_trail_stops(s, lo, j - 1);
    }
}

/// Removes leading and trailing whitespace.
pub fn trim(s: &str) -> (res: String)
    ensures
        res@ == trimmed(s@),
{
    let n = s.unicode_len();
    let mut lo: usize = 0;
    while lo < n && char_is_space(s.get_char(lo))
        invariant
            n == s@.len(),
            lo <= n,
            lead(s@, lo as int) == lead(s@, 0),
        decreases n - lo,
    {
        lo = lo + 1;
    }
    let mut hi: usize = n;
    while hi > lo && char_is_space(s.get_char(hi - 1))
        invariant
            n == s@.len(),
            lo <= hi <= n,
            lo == lead(s@, 0),
            trail(s@, lo as int, hi as int) == trail(s@, lo as int, n as int),
        decreases hi,
    {
        hi = hi - 1;
    }
    String::from_str(s.substring_char(lo, hi))
}

} // verus!
