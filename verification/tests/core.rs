//! The shell's core: command lines, paths, streams, errors and the prompt.
use shell::builtin::cd::{candidates, get_path, resolve_path, CdEnv, CdTarget, Resolution};
use shell::builtin::{builtins, resolve, Builtin};
use shell::environment::{path, path_entries};
use shell::error::{EString, Error};
use shell::ioface::IoFace;
use shell::options::{parse_args, OptionDecl};
use shell::path::{components, lexical_plan, path_join, render_path, Component};
use shell::prompt::{code_digits, decimal_text, home_relative, prompt_line_of, prompt_location, starts_with_path};
use shell::shell::{Dispatch, Shell};
use shell::stringbuffer::StringBuffer;
use shell::text::{join_words, split_lines, split_pieces, split_words, trim};

fn strings(v: &[&str]) -> Vec<String> {
    v.iter().map(|s| s.to_string()).collect()
}

fn new_shell() -> Shell {
    Shell::new(StringBuffer::new(), StringBuffer::new(), StringBuffer::new())
}

fn env(cwd: &str) -> CdEnv {
    CdEnv { home: Some("/home/u".into()), oldpwd: None, cdpath: None, pwd: Some("/pwd".into()), cwd: Ok(cwd.into()) }
}

#[test]
fn words_skip_repeated_spaces() {
    assert_eq!(split_words("  ls   -l  a "), strings(&["ls", "-l", "a"]));
    assert_eq!(split_words(""), Vec::<String>::new());
    assert_eq!(split_words("   "), Vec::<String>::new());
    assert_eq!(split_words("a\tb"), strings(&["a\tb"]));
}

#[test]
fn joining_words_then_splitting_gives_them_back() {
    let ws = strings(&["cd", "my", "dir"]);
    let line = join_words(&ws);
    assert_eq!(line, "cd my dir");
    assert_eq!(split_words(&line), ws);
}

#[test]
fn pieces_keep_empty_ones() {
    assert_eq!(split_pieces("a::b:", ':'), strings(&["a", "", "b", ""]));
    assert_eq!(split_pieces("", ':'), strings(&[""]));
}

#[test]
fn lines_drop_carriage_returns_before_line_feeds() {
    assert_eq!(split_lines("foo\r\nbar\n\nbaz\r"), strings(&["foo", "bar", "", "baz\r"]));
    assert_eq!(split_lines(""), Vec::<String>::new());
    assert_eq!(split_lines("a\n"), strings(&["a"]));
    assert_eq!(split_lines("\n"), strings(&[""]));
}

#[test]
fn trim_removes_unicode_whitespace() {
    assert_eq!(trim("  ls -l \n"), "ls -l");
    assert_eq!(trim("\u{3000}x\u{a0}"), "x");
    assert_eq!(trim(" \t "), "");
}

#[test]
fn exec_dispatches_by_the_first_word() {
    let mut shell = new_shell();
    assert!(matches!(shell.exec(""), Dispatch::Exit(0)));
    assert!(matches!(shell.exec("   "), Dispatch::Exit(0)));
    assert!(matches!(shell.exec("true"), Dispatch::Exit(0)));
    assert!(matches!(shell.exec("false x"), Dispatch::Exit(1)));
    assert!(matches!(shell.exec(": anything"), Dispatch::Exit(0)));
    assert!(matches!(shell.exec("eval eval false"), Dispatch::Exit(1)));
    match shell.exec("  ls  -l   /tmp ") {
        Dispatch::External(p, args) => {
            assert_eq!(p, "ls");
            assert_eq!(args, strings(&["-l", "/tmp"]));
        }
        _ => panic!("expected an outside program"),
    }
    match shell.exec(". script arg") {
        Dispatch::Builtin(b, args) => {
            assert_eq!(b, Builtin::Source);
            assert_eq!(args, strings(&["script", "arg"]));
        }
        _ => panic!("expected source"),
    }
    match shell.exec("eval cd /") {
        Dispatch::Builtin(b, args) => {
            assert_eq!(b, Builtin::Cd);
            assert_eq!(args, strings(&["/"]));
        }
        _ => panic!("expected cd"),
    }
}

#[test]
fn builtin_names_and_aliases() {
    let mut shell = new_shell();
    assert_eq!(shell.builtin(&":".to_string()), Some(Builtin::Noop));
    assert_eq!(shell.builtin(&".".to_string()), Some(Builtin::Source));
    assert_eq!(shell.builtin(&"pwd".to_string()), Some(Builtin::Pwd));
    assert_eq!(shell.builtin(&"ls".to_string()), None);
    assert_eq!(resolve(":"), "noop");
    let table = builtins();
    let names: Vec<&str> = table.iter().map(|(n, _)| n.as_str()).collect();
    assert_eq!(names, vec!["cd", "false", "pwd", "true", "noop", "source", "eval"]);
}

#[test]
fn components_follow_unix_rules() {
    let cs = components("/a//./b/../");
    assert_eq!(cs.len(), 4);
    assert!(matches!(cs[0], Component::RootDir));
    assert!(matches!(&cs[1], Component::Normal(n) if n == "a"));
    assert!(matches!(&cs[2], Component::Normal(n) if n == "b"));
    assert!(matches!(cs[3], Component::ParentDir));
    let cs = components("./x");
    assert!(matches!(cs[0], Component::CurDir));
    assert_eq!(components("").len(), 0);
}

#[test]
fn joining_paths() {
    assert_eq!(path_join("/usr", "bin"), "/usr/bin");
    assert_eq!(path_join("/usr/", "bin"), "/usr/bin");
    assert_eq!(path_join("", "bin"), "bin");
    assert_eq!(path_join("/usr", "/etc"), "/etc");
    assert_eq!(render_path(true, &strings(&["a", "b"])), "/a/b");
    assert_eq!(render_path(false, &strings(&["a"])), "a");
}

#[test]
fn lexical_walk_checks_before_going_up() {
    let (checks, end) = lexical_plan("a/b/../..", "/home/u");
    assert_eq!(checks, strings(&["/home/u/a/b", "/home/u/a"]));
    assert_eq!(end, "/home/u");
    let (checks, end) = lexical_plan("../x", "/home/u");
    assert!(checks.is_empty());
    assert_eq!(end, "/home/u/../x");
    let (checks, end) = lexical_plan("/..", "/home/u");
    assert!(checks.is_empty());
    assert_eq!(end, "/..");
    let (checks, end) = lexical_plan("./..", "/home/u");
    assert_eq!(checks, strings(&["/home/u"]));
    assert_eq!(end, "/home");
}

#[test]
fn cd_targets() {
    assert!(matches!(get_path(&Vec::new(), &env("/")), CdTarget::Direct(h) if h == "/home/u"));
    assert!(matches!(get_path(&strings(&["^"]), &env("/")), CdTarget::Direct(p) if p == ".."));
    assert!(matches!(get_path(&strings(&["/a", "b"]), &env("/")), CdTarget::Resolve(p) if p == "/a b"));
    let mut e = env("/");
    e.cdpath = Some("/x::y/".into());
    match get_path(&strings(&["d"]), &e) {
        CdTarget::Search(c, d) => {
            assert_eq!(c, strings(&["/x/d", "/x/./d", "y/d", "y/./d"]));
            assert_eq!(d, "d");
        }
        _ => panic!("expected a search"),
    }
    assert_eq!(candidates("", "d"), Vec::<String>::new());
}

#[test]
fn cd_resolution() {
    match resolve_path(true, "a/..", &env("/w")) {
        Resolution::Plan(c, p) => {
            assert!(c.is_empty());
            assert_eq!(p, "a/..");
        }
        _ => panic!("expected a plan"),
    }
    match resolve_path(false, "\\x", &env("/w")) {
        Resolution::Plan(c, p) => {
            assert!(c.is_empty());
            assert_eq!(p, "/pwd/\\x");
        }
        _ => panic!("expected a plan"),
    }
    let mut e = env("/w");
    e.cwd = Err("gone".into());
    assert!(matches!(resolve_path(false, "a", &e), Resolution::Fail(d) if d == "gone"));
    e.pwd = None;
    assert!(matches!(resolve_path(false, "/a", &e), Resolution::Abort));
}

#[test]
fn options_are_read_with_getopts() {
    let p = parse_args(&strings(&["a", "b"]), OptionDecl::Physical).unwrap();
    assert_eq!(p.free, strings(&["a", "b"]));
    assert!(!p.present);
    let p = parse_args(&strings(&["--physical", "x"]), OptionDecl::Physical).unwrap();
    assert!(p.present);
    assert_eq!(p.free, strings(&["x"]));
    let p = parse_args(&strings(&["-p", "/a:/b", "f"]), OptionDecl::SearchPath).unwrap();
    assert_eq!(p.value, Some("/a:/b".to_string()));
    assert_eq!(p.free, strings(&["f"]));
    assert!(parse_args(&strings(&["-q"]), OptionDecl::BareFlag).is_none());
    assert!(parse_args(&strings(&["-p"]), OptionDecl::SearchPath).is_none());
}

#[test]
fn search_path_keeps_directories() {
    let entries = path_entries("/bin:/nope:/usr/bin");
    assert_eq!(entries, strings(&["/bin", "/nope", "/usr/bin"]));
    assert_eq!(path(&entries, &vec![true, false, true]), strings(&["/bin", "/usr/bin"]));
}

#[test]
fn errors_show_their_details() {
    let e = Error::from("bad");
    assert_eq!(e.message(), "Error: bad");
    assert_eq!(e.details(), "bad");
    let e = Error::from(EString::from("worse"));
    assert_eq!(e.message(), "Error: worse");
    let e = Error::from(String::from("x"));
    assert_eq!(e.message(), "Error: x");
}

#[test]
fn string_buffer_reads_and_writes_text() {
    let mut b = StringBuffer::new();
    assert_eq!(b.write("héllo".as_bytes()).unwrap(), 6);
    assert!(b.write(&[0xff, 0xfe]).is_err());
    let mut buf = [0u8; 3];
    assert_eq!(b.read(&mut buf).unwrap(), 3);
    assert_eq!(&buf, b"h\xc3\xa9");
    let mut big = [7u8; 8];
    assert_eq!(b.read(&mut big).unwrap(), 6);
    assert_eq!(&big, b"h\xc3\xa9llo\x07\x07");
    assert!(b.flush().is_ok());
    assert_eq!(b.into_string(), "héllo");
}

#[test]
fn streams_write_lines_and_read_them() {
    let mut input = StringBuffer::new();
    input.write(b"  first line \nsecond").unwrap();
    let mut io = IoFace::new(input, StringBuffer::new(), StringBuffer::new());
    io.writeln("a".to_string()).unwrap();
    io.writeln("b\n".to_string()).unwrap();
    io.write("c".to_string()).unwrap();
    assert_eq!(io.read().unwrap(), "first line");
    assert_eq!(io.read().unwrap(), "second");
    assert_eq!(io.read().unwrap(), "");
    io.errln("oops".to_string()).unwrap();
    io.err("!".to_string()).unwrap();
    assert!(io.err_buf(&[0xc3]).is_ok());
    assert_eq!(String::from_utf8(io.take_output()).unwrap(), "a\nb\nc");
    assert_eq!(io.take_errors(), b"oops\n!\xc3".to_vec());
    let mut buffer = String::from("x");
    io.supply("line\nrest");
    io.read_buf(&mut buffer).unwrap();
    assert_eq!(buffer, "xline\n");
}

#[test]
fn shell_prompt_reads_a_line() {
    let mut shell = new_shell();
    shell.supply("  pwd  \n");
    let line = shell.prompt_sigil("$ ".to_string()).unwrap();
    assert_eq!(line, "pwd");
    assert_eq!(String::from_utf8(shell.take_output()).unwrap(), "$ ");
    shell.writeln("out").unwrap();
    shell.errln("err\n").unwrap();
    shell.write_buf(b"bytes").unwrap();
    shell.err_buf(b"!").unwrap();
    assert_eq!(String::from_utf8(shell.take_output()).unwrap(), "out\nbytes");
    assert_eq!(String::from_utf8(shell.take_errors()).unwrap(), "err\n!");
}

#[test]
fn prompt_parts() {
    assert_eq!(decimal_text(0), "0");
    assert_eq!(decimal_text(4096), "4096");
    assert_eq!(code_digits(0), "000");
    assert_eq!(code_digits(-1), "001");
    assert_eq!(code_digits(255), "255");
    assert_eq!(code_digits(1000), "1000");
    assert!(starts_with_path("/home/u/src", "/home/u"));
    assert!(!starts_with_path("/home/user", "/home/u"));
    assert_eq!(prompt_location("/home/u/src", Some("/home/u")), "~/src");
    assert_eq!(prompt_location("/tmp", Some("/home/u")), "/tmp");
    assert_eq!(prompt_location("/tmp", None), "/tmp");
    assert_eq!(prompt_location("/home/u/a/b", Some("/home/u/")), "~/a/b");
    assert_eq!(home_relative("/x", Some("a/b".to_string())), "~/a/b");
    assert_eq!(home_relative("/x", None), "/x");
    assert_eq!(prompt_location("/home/u/../x", Some("/home/u")), "~/../x");
    assert_eq!(prompt_location("/home/u", Some("/home/u")), "~/");
    assert_eq!(prompt_line_of("000", "12:00:00", "/home/u", Some("/home/u")), "000 12:00:00 ~/  ");
}

#[test]
fn prompt_shows_code_time_and_place() {
    let mut shell = new_shell();
    shell.supply("ls\n");
    let line = shell.prompt(0, "10:11:12", "/tmp", None).unwrap();
    assert_eq!(line, "ls");
    let shown = String::from_utf8(shell.take_output()).unwrap();
    let plain = "000 10:11:12 /tmp  ";
    let colored = "\x1b[2m000\x1b[0m \x1b[2m10:11:12\x1b[0m /tmp  ";
    assert!(shown == plain || shown == colored);
}

#[test]
fn output_keeps_bytes_that_are_not_text() {
    let mut shell = new_shell();
    shell.write_buf(&[0xe2, 0x82]).unwrap();
    shell.write_buf(&[0xac, b'!']).unwrap();
    shell.err_buf(&[0xff, 0x00, 0xfe]).unwrap();
    assert_eq!(String::from_utf8(shell.take_output()).unwrap(), "\u{20ac}!");
    assert_eq!(shell.take_errors(), vec![0xff, 0x00, 0xfe]);
}
