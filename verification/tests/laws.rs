//! The library's laws, checked on concrete values.
use shell::builtin::{builtins, Builtin};
use shell::ioface::{terminate, IoFace};
use shell::path::lexical_plan;
use shell::shell::{Dispatch, Shell};
use shell::stringbuffer::StringBuffer;
use shell::text::trim;

fn new_shell() -> Shell {
    Shell::new(StringBuffer::new(), StringBuffer::new(), StringBuffer::new())
}

fn same(a: &Dispatch, b: &Dispatch) -> bool {
    match (a, b) {
        (Dispatch::Exit(x), Dispatch::Exit(y)) => x == y,
        (Dispatch::Builtin(x, xs), Dispatch::Builtin(y, ys)) => x == y && xs == ys,
        (Dispatch::External(x, xs), Dispatch::External(y, ys)) => x == y && xs == ys,
        _ => false,
    }
}

#[test]
fn aliases_call_what_their_names_call() {
    let mut shell = new_shell();
    let colon = shell.builtin(&":".to_string());
    assert_eq!(colon, shell.builtin(&"noop".to_string()));
    assert_eq!(colon, Some(Builtin::Noop));
    let dot = shell.builtin(&".".to_string());
    assert_eq!(dot, shell.builtin(&"source".to_string()));
    assert_eq!(dot, Some(Builtin::Source));
}

#[test]
fn every_table_name_calls_its_builtin() {
    let mut shell = new_shell();
    let table = builtins();
    for (i, (name, b)) in table.iter().enumerate() {
        assert_eq!(shell.builtin(name), Some(*b));
        for (other, _) in table.iter().skip(i + 1) {
            assert_ne!(name, other);
        }
    }
}

#[test]
fn eval_in_front_changes_nothing() {
    let mut shell = new_shell();
    for line in ["false", "true", "", "cd /tmp", "  ls -l  x", "eval false", ". s a"] {
        let plain = shell.exec(line);
        let with_eval = shell.exec(&format!("eval {}", line));
        assert!(same(&plain, &with_eval), "line {:?}", line);
    }
}

#[test]
fn terminating_a_line_once() {
    assert_eq!(terminate("abc".to_string()), "abc\n");
    assert_eq!(terminate("abc\n".to_string()), "abc\n");
    assert_eq!(terminate(String::new()), "\n");
    let once = terminate("x y".to_string());
    assert_eq!(terminate(once.clone()), once);
    assert!(once.starts_with("x y"));
}

#[test]
fn supplied_line_is_read_back() {
    let mut io = IoFace::new(StringBuffer::new(), StringBuffer::new(), StringBuffer::new());
    io.supply("cd /tmp\nrest\n");
    let mut buffer = String::new();
    io.read_buf(&mut buffer).unwrap();
    assert_eq!(buffer, "cd /tmp\n");
    assert_eq!(io.read().unwrap(), "rest");
}

#[test]
fn buffer_gives_back_what_was_written() {
    let mut b = StringBuffer::new();
    b.write("grüß ".as_bytes()).unwrap();
    b.write("dich".as_bytes()).unwrap();
    let mut out = [0u8; 32];
    let n = b.read(&mut out).unwrap();
    assert_eq!(&out[..n], "grüß dich".as_bytes());
}

#[test]
fn trimming_twice_is_trimming_once() {
    for s in ["  a b \t", "", " \u{3000}x\u{a0}", "plain", "\n\n"] {
        let once = trim(s);
        assert_eq!(trim(&once), once);
    }
}

#[test]
fn name_then_parent_returns() {
    let (checks, end) = lexical_plan("./x/..", "/home/u");
    assert_eq!(checks, vec!["/home/u/x".to_string()]);
    assert_eq!(end, "/home/u");
    let (checks_a, end_a) = lexical_plan("./a/b/..", "/r");
    let (checks_b, end_b) = lexical_plan("./a", "/r");
    assert_eq!(end_a, end_b);
    assert_eq!(checks_a, vec!["/r/a/b".to_string()]);
    assert!(checks_b.is_empty());
}

#[test]
fn spacing_does_not_matter() {
    let mut shell = new_shell();
    for line in ["  ls   -l  x ", "cd    /tmp", "   ", "eval   false"] {
        let words: Vec<&str> = line.split(' ').filter(|w| !w.is_empty()).collect();
        let normal = words.join(" ");
        let a = shell.exec(line);
        let b = shell.exec(&normal);
        assert!(same(&a, &b), "line {:?}", line);
    }
}
