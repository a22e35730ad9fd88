//! The builtin commands and the table that names them.
use vstd::prelude::*;

pub mod eval;
pub mod succeed;
pub mod fail;
pub mod noop;
pub mod cd;
pub mod pwd;
pub mod source;

verus! {

/// A builtin command.
#[derive(Clone, Copy, PartialEq, Eq, Structural, Debug)]
pub enum Builtin {
    Cd,
    False,
    Pwd,
    True,
    Noop,
    Source,
    Eval,
}

/// The builtins by name, in the order the table lists them.
pub open spec fn builtin_table() -> Seq<(Seq<char>, Builtin)> {
    seq![
        (seq!['c', 'd'], Builtin::Cd),
        (seq!['f', 'a', 'l', 's', 'e'], Builtin::False),
        (seq!['p', 'w', 'd'], Builtin::Pwd),
        (seq!['t', 'r', 'u', 'e'], Builtin::True),
        (seq!['n', 'o', 'o', 'p'], Builtin::Noop),
        (seq!['s', 'o', 'u', 'r', 'c', 'e'], Builtin::Source),
        (seq!['e', 'v', 'a', 'l'], Builtin::Eval),
    ]
}

/// The views of a table of builtins.
pub open spec fn table_view(t: Seq<(String, Builtin)>) -> Seq<(Seq<char>, Builtin)> {
    t.map_values(|e: (String, Builtin)| (e.0@, e.1))
}

/// The builtin that the first entry of `t` named `name` holds.
pub open spec fn table_lookup(t: Seq<(Seq<char>, Builtin)>, name: Seq<char>) -> Option<Builtin>
    decreases t.len(),
{
    if t.len() == 0 {
        None
    } else if t[0].0 == name {
        Some(t[0].1)
    } else {
        table_lookup(t.drop_first(), name)
    }
}

/// The name that an alias stands for: `:` for `noop` and `.` for `source`;
/// other names stand for themselves.
pub open spec fn resolve_alias(name: Seq<char>) -> Seq<char> {
    if name == seq![':'] {
        seq!['n', 'o', 'o', 'p']
    } else if name == seq!['.'] {
        seq!['s', 'o', 'u', 'r', 'c', 'e']
    } else {
        name
    }
}

/// The builtin that a command name calls, if any.
pub open spec fn named_builtin(name: Seq<char>) -> Option<Builtin> {
    table_lookup(builtin_table(), resolve_alias(name))
}

/// The table of builtins.
pub fn builtins() -> (res: Vec<(String, Builtin)>)
    ensures
        table_view(res@) == builtin_table(),
{
    proof {
        reveal_strlit("cd");
        reveal_strlit("false");
        reveal_strlit("pwd");
        reveal_strlit("true");
        reveal_strlit("noop");
        reveal_strlit("source");
        reveal_strlit("eval");
    }
    let mut m: Vec<(String, Builtin)> = Vec::new();
    m.push((String::from_str("cd"), Builtin::Cd));
    m.push((String::from_str("false"), Builtin::False));
    m.push((String::from_str("pwd"), Builtin::Pwd));
    m.push((String::from_str("true"), Builtin::True));
    m.push((String::from_str("noop"), Builtin::Noop));
    m.push((String::from_str("source"), Builtin::Source));
    m.push((String::from_str("eval"), Builtin::Eval));
    proof {
        assert("cd"@ =~= seq!['c', 'd']);
        assert("false"@ =~= seq!['f', 'a', 'l', 's', 'e']);
        assert("pwd"@ =~= seq!['p', 'w', 'd']);
        assert("true"@ =~= seq!['t', 'r', 'u', 'e']);
        assert("noop"@ =~= seq!['n', 'o', 'o', 'p']);
        assert("source"@ =~= seq!['s', 'o', 'u', 'r', 'c', 'e']);
        assert("eval"@ =~= seq!['e', 'v', 'a', 'l']);
        assert(table_view(m@) =~= builtin_table());
    }
    m
}

/// The name that an alias stands for.
pub fn resolve(name: &str) -> (res: String)
    ensures
        res@ == resolve_alias(name@),
{
    let n = name.unicode_len();
    proof {
        reveal_strlit("noop");
        reveal_strlit("source");
        if n == 1 {
            assert(name@ =~= seq![name@[0]]);
        }
    }
    proof {
        assert("noop"@ =~= seq!['n', 'o', 'o', 'p']);
        assert("source"@ =~= seq!['s', 'o', 'u', 'r', 'c', 'e']);
    }
    if n == 1 && name.get_char(0) == ':' {
        String::from_str("noop")
    } else if n == 1 && name.get_char(0) == '.' {
        String::from_str("source")
    } else {
        String::from_str(name)
    }
}

} // verus!
