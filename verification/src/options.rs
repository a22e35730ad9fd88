//! Reading a builtin's arguments: its one `-p` option and its free arguments,
//! as the `getopts` crate reads them.
use vstd::prelude::*;
use crate::text::views;

verus! {

/// What an argument list parsed into: the free arguments in order, whether
/// the option was given, and the value it was given with, if any.
pub struct ParsedView {
    pub free: Seq<Seq<char>>,
    pub present: bool,
    pub value: Option<Seq<char>>,
}

/// What an argument list parsed into.
pub struct ParsedArgs {
    pub free: Vec<String>,
    pub present: bool,
    pub value: Option<String>,
}

impl View for ParsedArgs {
    type V = ParsedView;

    open spec fn view(&self) -> ParsedView {
        ParsedView {
            free: views(self.free@),
            present: self.present,
            value: match self.value {
                Some(v) => Some(v@),
                None => None,
            },
        }
    }
}

/// The outcome of `getopts::Options::parse` on `args`, for options that
/// declare the one option with the short name `short` and the long name
/// `long` (none if empty), which takes a value when `takes_value` holds and
/// may occur at most once: `None` when getopts refuses the arguments.
pub uninterp spec fn getopts_outcome(
    args: Seq<Seq<char>>,
    short: Seq<char>,
    long: Seq<char>,
    takes_value: bool,
) -> Option<ParsedView>;

/// An argument that getopts reads as an option: it starts with `-` and has
/// more than that one character.
pub open spec fn option_like(arg: Seq<char>) -> bool {
    arg.len() > 1 && arg[0] == '-'
}

/// None of the arguments reads as an option.
pub open spec fn no_options(args: Seq<Seq<char>>) -> bool {
    forall|i: int| 0 <= i < args.len() ==> !option_like(#[trigger] args[i])
}

/// The option is given alone, first, as `-<short>` or (when it has one) as
/// `--<long>`, and nothing after it reads as an option.
pub open spec fn flag_first(args: Seq<Seq<char>>, short: Seq<char>, long: Seq<char>) -> bool {
    &&& args.len() > 0
    &&& (args[0] == seq!['-'] + short || (long.len() > 0 && args[0] == seq!['-', '-'] + long))
    &&& no_options(args.drop_first())
}

/// The option is given first as `-<short>`, followed by its value, and
/// nothing after the value reads as an option.
pub open spec fn value_first(args: Seq<Seq<char>>, short: Seq<char>) -> bool {
    &&& args.len() > 1
    &&& args[0] == seq!['-'] + short
    &&& no_options(args.skip(2))
}

/// The first argument is `-` and one character that is neither `-` nor the
/// short name: a short option that is not declared.
pub open spec fn unknown_first(args: Seq<Seq<char>>, short: Seq<char>) -> bool {
    &&& args.len() > 0
    &&& args[0].len() == 2
    &&& args[0][0] == '-'
    &&& args[0][1] != '-'
    &&& args[0][1] != short[0]
}

/// What getopts' source shows the outcome to be on some argument lists
/// (none where this says nothing): a first argument naming an undeclared
/// short option is refused; arguments none of which reads as an option are
/// all free; a flag given alone first is present and the rest is free; an
/// option with a value given first with its value is present with it and
/// the rest is free.
pub open spec fn getopts_known(args: Seq<Seq<char>>, short: Seq<char>, long: Seq<char>, takes_value: bool) -> Option<Option<ParsedView>> {
    if unknown_first(args, short) {
        Some(None)
    } else if no_options(args) {
        Some(Some(ParsedView { free: args, present: false, value: None }))
    } else if !takes_value && flag_first(args, short, long) {
        Some(Some(ParsedView { free: args.drop_first(), present: true, value: None }))
    } else if takes_value && value_first(args, short) {
        Some(Some(ParsedView { free: args.skip(2), present: true, value: Some(args[1]) }))
    } else {
        None
    }
}

/// Parses `args` with `getopts::Options::parse`, the options holding one
/// option declared by `getopts::Options::opt` (short name `short`, long name
/// `long`, a required argument when `takes_value` holds and none otherwise,
/// at most one occurrence), and reads the free arguments, `opt_present` and
/// `opt_str` of the short name from the matches.
/// The contract claims: the outcome is the one that `getopts_outcome` names;
/// on the argument lists that `getopts_known` covers it is the one given
/// there, as `parse` shows: an undeclared short option fails with
/// `UnrecognizedOption` as soon as it is met; an argument that `is_arg`
/// rejects is pushed onto `free`; `-<short>` or `--<long>` of a flag records
/// `Given`, so the option is present and `opt_str` gives nothing; `-<short>`
/// of an option with a value takes the next argument as its `Val`; one
/// occurrence passes the at-most-once check. Besides, a value is only given
/// for a present option that takes one, and a present option that takes a
/// value has one (getopts records a `Val` for it or fails with
/// `ArgumentMissing`).
#[verifier::external_body]
fn getopts_parse(args: &Vec<String>, short: &str, long: &str, takes_value: bool) -> (res: Option<ParsedArgs>)
    requires
        short@.len() == 1,
        (short@[0] as u32) < 128,
        short@[0] != '-',
        long@.len() == 0 || long@.len() >= 2,
    ensures
        res is Some <==> getopts_outcome(views(args@), short@, long@, takes_value) is Some,
        res matches Some(p) ==> getopts_outcome(views(args@), short@, long@, takes_value) == Some(p@),
        getopts_known(views(args@), short@, long@, takes_value) matches Some(o) ==> match res {
            Some(p) => o == Some(p@),
            None => o is None,
        },
        res matches Some(p) ==> (p.value is Some ==> p.present && takes_value),
        res matches Some(p) ==> (p.present && takes_value ==> p.value is Some),
{
    let mut opts = getopts::Options::new();
    let hasarg = if takes_value { getopts::HasArg::Yes } else { getopts::HasArg::No };
    opts.opt(short, long, "", "", hasarg, getopts::Occur::Optional);
    match opts.parse(args) {
        Ok(m) => Some(ParsedArgs { free: m.free.clone(), present: m.opt_present(short), value: m.opt_str(short) }),
        Err(_) => None,
    }
}

/// Which option a builtin declares.
pub enum OptionDecl {
    /// `-p` (long form `--physical`), a flag: `cd`.
    Physical,
    /// `-p`, a flag without a long form: `pwd`.
    BareFlag,
    /// `-p <path>`, an option with a value: `source`.
    SearchPath,
}

/// The short name of the declared option: `p` for every builtin.
pub open spec fn decl_short(d: OptionDecl) -> Seq<char> {
    seq!['p']
}

/// The long name of the declared option, empty when it has none.
pub open spec fn decl_long(d: OptionDecl) -> Seq<char> {
    match d {
        OptionDecl::Physical => seq!['p', 'h', 'y', 's', 'i', 'c', 'a', 'l'],
        _ => Seq::empty(),
    }
}

/// Whether the declared option takes a value.
pub open spec fn decl_takes_value(d: OptionDecl) -> bool {
    d is SearchPath
}

/// What getopts' source shows the outcome to be under a declaration, where
/// it shows it.
pub open spec fn known_outcome(args: Seq<Seq<char>>, d: OptionDecl) -> Option<Option<ParsedView>> {
    getopts_known(args, decl_short(d), decl_long(d), decl_takes_value(d))
}

/// How the arguments parse under a declaration.
pub open spec fn parse_outcome(args: Seq<Seq<char>>, d: OptionDecl) -> Option<ParsedView> {
    getopts_outcome(args, decl_short(d), decl_long(d), decl_takes_value(d))
}

/// Parses a builtin's arguments under its option declaration.
pub fn parse_args(args: &Vec<String>, decl: OptionDecl) -> (res: Option<ParsedArgs>)
    ensures
        res is Some <==> parse_outcome(views(args@), decl) is Some,
        res matches Some(p) ==> parse_outcome(views(args@), decl) == Some(p@),
        known_outcome(views(args@), decl) matches Some(o) ==> parse_outcome(views(args@), decl) == o,
        res matches Some(p) ==> (p.value is Some ==> p.present && decl_takes_value(decl)),
        res matches Some(p) ==> (p.present && decl_takes_value(decl) ==> p.value is Some),
{
    let short = "p";
    proof {
        reveal_strlit("p");
        reveal_strlit("physical");
        reveal_strlit("");
        assert(short@ =~= seq!['p']);
        assert("physical"@ =~= seq!['p', 'h', 'y', 's', 'i', 'c', 'a', 'l']);
        assert(""@ =~= Seq::<char>::empty());
    }
    match decl {
        OptionDecl::Physical => getopts_parse(args, short, "physical", false),
        OptionDecl::BareFlag => getopts_parse(args, short, "", false),
        OptionDecl::SearchPath => getopts_parse(args, short, "", true),
    }
}

} // verus!
