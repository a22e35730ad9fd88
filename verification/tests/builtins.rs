//! The builtins run against a small simulated system: a few directories and
//! files, a working directory and environment variables.
use shell::builtin::cd::{self, CdAction, CdEnv};
use shell::builtin::pwd::{self, PwdAction, PwdEnv};
use shell::builtin::source::{self, SourceAction, SourceEnv};
use shell::builtin::Builtin;
use shell::shell::{Dispatch, Shell};
use shell::stringbuffer::StringBuffer;

struct World {
    cwd: String,
    home: Option<String>,
    oldpwd: Option<String>,
    pwd: Option<String>,
    cdpath: Option<String>,
    path: Option<String>,
    dirs: Vec<String>,
    files: Vec<(String, String)>,
}

impl World {
    fn standard() -> World {
        World {
            cwd: "/home/user".to_string(),
            home: Some("/home/user".to_string()),
            oldpwd: None,
            pwd: Some("/home/user".to_string()),
            cdpath: None,
            path: Some("/bin:/usr/bin".to_string()),
            dirs: vec!["/", "/home", "/home/user", "/home/user/src", "/tmp", "/bin", "/usr", "/usr/bin"]
                .into_iter()
                .map(|s| s.to_string())
                .collect(),
            files: vec![
                ("/home/user/script".to_string(), "true\ncd /tmp\nfalse\ncd /\n".to_string()),
                ("/tmp/ok".to_string(), "noop\r\n: again\n".to_string()),
            ],
        }
    }

    fn absolute(&self, p: &str) -> String {
        let joined = if p.starts_with('/') { p.to_string() } else { format!("{}/{}", self.cwd, p) };
        let mut parts: Vec<&str> = Vec::new();
        for piece in joined.split('/') {
            match piece {
                "" | "." => {}
                ".." => {
                    parts.pop();
                }
                other => parts.push(other),
            }
        }
        format!("/{}", parts.join("/"))
    }

    fn is_dir(&self, p: &str) -> bool {
        let a = self.absolute(p);
        self.dirs.iter().any(|d| *d == a)
    }

    fn is_file(&self, p: &str) -> bool {
        let a = self.absolute(p);
        self.files.iter().any(|(f, _)| *f == a)
    }

    fn canonicalize(&self, p: &str) -> Result<String, String> {
        if self.is_dir(p) || self.is_file(p) {
            Ok(self.absolute(p))
        } else {
            Err("No such file or directory (os error 2)".to_string())
        }
    }

    fn change_dir(&mut self, p: &str) -> Result<(), String> {
        if self.is_dir(p) {
            self.cwd = self.absolute(p);
            Ok(())
        } else {
            Err("No such file or directory (os error 2)".to_string())
        }
    }

    fn read(&self, p: &str) -> String {
        let a = self.absolute(p);
        self.files.iter().find(|(f, _)| *f == a).map(|(_, c)| c.clone()).unwrap()
    }
}

fn run_cd(shell: &mut Shell, world: &mut World, args: Vec<String>) -> i32 {
    let env = CdEnv {
        home: world.home.clone(),
        oldpwd: world.oldpwd.clone(),
        cdpath: world.cdpath.clone(),
        pwd: world.pwd.clone(),
        cwd: Ok(world.cwd.clone()),
    };
    let (mut cd, mut action) = cd::function(shell, args, env);
    loop {
        action = match action {
            CdAction::CheckDirs(ps) => {
                let found: Vec<bool> = ps.iter().map(|p| world.is_dir(p)).collect();
                cd.dirs_checked(shell, found)
            }
            CdAction::Canonicalize(p) => cd.canonicalized(shell, world.canonicalize(&p)),
            CdAction::ChangeDir(p) => {
                let r = world.change_dir(&p);
                cd.changed(r)
            }
            CdAction::SetPwd(v) => {
                world.pwd = Some(v);
                cd.var_set()
            }
            CdAction::SetOldPwd(v) => {
                world.oldpwd = Some(v);
                cd.var_set()
            }
            CdAction::Abort => panic!("cd gave up"),
            CdAction::Finish(code) => return code,
        }
    }
}

fn run_pwd(shell: &mut Shell, world: &mut World, args: Vec<String>) -> i32 {
    let env = PwdEnv { cwd: Ok(world.cwd.clone()), pwd: world.pwd.clone() };
    let (mut pwd, mut action) = pwd::function(shell, args, env);
    loop {
        action = match action {
            PwdAction::Canonicalize(p) => pwd.canonicalized(shell, world.canonicalize(&p)),
            PwdAction::Abort => panic!("pwd gave up"),
            PwdAction::Finish(code) => return code,
        }
    }
}

fn run_source(shell: &mut Shell, world: &mut World, args: Vec<String>) -> i32 {
    let env = SourceEnv { path: world.path.clone(), cwd: Ok(world.cwd.clone()) };
    let (mut source, mut action) = source::function(shell, args, env);
    loop {
        action = match action {
            SourceAction::CheckDirs(ps) => {
                let found: Vec<bool> = ps.iter().map(|p| world.is_dir(p)).collect();
                source.dirs_checked(found)
            }
            SourceAction::CheckFiles(ps) => {
                let found: Vec<bool> = ps.iter().map(|p| world.is_file(p)).collect();
                source.files_checked(shell, found)
            }
            SourceAction::ReadScript(p) => source.script_read(world.read(&p)),
            SourceAction::RunLine(line) => {
                let code = run_line(shell, world, &line);
                source.line_done(code)
            }
            SourceAction::Abort => panic!("source gave up"),
            SourceAction::Finish(code) => return code,
        }
    }
}

fn run_line(shell: &mut Shell, world: &mut World, line: &str) -> i32 {
    match shell.exec(line) {
        Dispatch::Exit(code) => code,
        Dispatch::Builtin(b, args) => run_builtin(shell, world, b, args),
        Dispatch::External(_, _) => 127,
    }
}

fn run_builtin(shell: &mut Shell, world: &mut World, b: Builtin, args: Vec<String>) -> i32 {
    match b {
        Builtin::Cd => run_cd(shell, world, args),
        Builtin::Pwd => run_pwd(shell, world, args),
        Builtin::Source => run_source(shell, world, args),
        Builtin::True => shell::builtin::succeed::function(shell, args),
        Builtin::False => shell::builtin::fail::function(shell, args),
        Builtin::Noop => shell::builtin::noop::function(shell, args),
        Builtin::Eval => match shell::builtin::eval::function(shell, args) {
            Dispatch::Exit(code) => code,
            Dispatch::Builtin(b, args) => run_builtin(shell, world, b, args),
            Dispatch::External(_, _) => 127,
        },
    }
}

fn std_shell() -> Shell {
    Shell::new(StringBuffer::new(), StringBuffer::new(), StringBuffer::new())
}

fn std_builtin_in(world: &mut World, builtin: &str, arguments: Vec<String>) -> (i32, Shell) {
    let mut shell = std_shell();
    let command = shell.builtin(&builtin.to_string()).unwrap();
    let code = run_builtin(&mut shell, world, command, arguments);
    (code, shell)
}

fn std_builtin(builtin: &str, arguments: Vec<String>) -> i32 {
    let mut world = World::standard();
    std_builtin_in(&mut world, builtin, arguments).0
}

#[test]
fn cd_exits_0() {
    let result = std_builtin("cd", Vec::new());
    assert_eq!(result, 0);
}

#[test]
fn exits_0_dashp() {
    let result = std_builtin("cd", vec!["-p".into(), "/".into()]);
    assert_eq!(result, 0);
}

#[test]
fn exits_0_prevdir() {
    let result = std_builtin("cd", vec!["^".into()]);
    assert_eq!(result, 0);
}

#[test]
fn exits_1_noexist() {
    let result = std_builtin("cd", vec!["/thisdoesnotexist".into()]);
    assert_eq!(result, 1);
}

#[test]
fn exits_1() {
    let result = std_builtin("false", Vec::new());
    assert_eq!(result, 1);
}

#[test]
fn noop_exits_0() {
    let result = std_builtin("noop", Vec::new());
    assert_eq!(result, 0);
}

#[test]
fn pwd_exits_0() {
    let result = std_builtin("pwd", Vec::new());
    assert_eq!(result, 0);
}

#[test]
fn true_exits_0() {
    assert_eq!(std_builtin("true", vec!["ignored".into()]), 0);
}

#[test]
fn pwd_prints_the_working_directory() {
    let mut world = World::standard();
    let (code, mut shell) = std_builtin_in(&mut world, "pwd", Vec::new());
    assert_eq!(code, 0);
    assert_eq!(String::from_utf8(shell.take_output()).unwrap(), "/home/user\n");
}

#[test]
fn pwd_prints_the_working_directory_when_pwd_is_stale() {
    let mut world = World::standard();
    world.cwd = "/tmp".to_string();
    world.pwd = Some("/home/user".to_string());
    let (code, mut shell) = std_builtin_in(&mut world, "pwd", Vec::new());
    assert_eq!(code, 0);
    assert_eq!(String::from_utf8(shell.take_output()).unwrap(), "/tmp\n");
    let (code, mut shell) = std_builtin_in(&mut world, "pwd", vec!["-p".into()]);
    assert_eq!(code, 0);
    assert_eq!(String::from_utf8(shell.take_output()).unwrap(), "/tmp\n");
}

#[test]
fn cd_reads_its_physical_flag() {
    let mut world = World::standard();
    let (code, _) = std_builtin_in(&mut world, "cd", vec!["--physical".into(), "/tmp".into()]);
    assert_eq!(code, 0);
    assert_eq!(world.cwd, "/tmp");
    let (code, _) = std_builtin_in(&mut world, "cd", vec!["-x".into(), "/".into()]);
    assert_eq!(code, -1);
    assert_eq!(world.cwd, "/tmp");
}

#[test]
fn pwd_refuses_an_unknown_option() {
    assert_eq!(std_builtin("pwd", vec!["-x".into()]), -1);
}

#[test]
fn cd_goes_home_and_back() {
    let mut world = World::standard();
    world.cwd = "/tmp".to_string();
    let (code, _) = std_builtin_in(&mut world, "cd", Vec::new());
    assert_eq!(code, 0);
    assert_eq!(world.cwd, "/home/user");
    assert_eq!(world.oldpwd, Some("/tmp".to_string()));
    let (code, _) = std_builtin_in(&mut world, "cd", vec!["^".into()]);
    assert_eq!(code, 0);
    assert_eq!(world.cwd, "/tmp");
}

#[test]
fn cd_records_where_it_went_and_where_it_left() {
    let mut world = World::standard();
    let (code, _) = std_builtin_in(&mut world, "cd", vec!["src".into()]);
    assert_eq!(code, 0);
    assert_eq!(world.cwd, "/home/user/src");
    assert_eq!(world.pwd, Some("/home/user/src".to_string()));
    assert_eq!(world.oldpwd, Some("/home/user".to_string()));
    let (code, _) = std_builtin_in(&mut world, "cd", vec!["/nowhere".into()]);
    assert_eq!(code, 1);
    assert_eq!(world.cwd, "/home/user/src");
    assert_eq!(world.pwd, Some("/home/user/src".to_string()));
    assert_eq!(world.oldpwd, Some("/home/user".to_string()));
    world.oldpwd = None;
    let (code, _) = std_builtin_in(&mut world, "cd", vec!["^".into()]);
    assert_eq!(code, 0);
    assert_eq!(world.cwd, "/home/user");
    assert_eq!(world.pwd, Some("/home".to_string()));
    assert_eq!(world.oldpwd, Some("/home/user/src".to_string()));
}

#[test]
fn cd_without_home_fails_with_a_message() {
    let mut world = World::standard();
    world.home = None;
    let (code, mut shell) = std_builtin_in(&mut world, "cd", Vec::new());
    assert_eq!(code, 1);
    assert_eq!(String::from_utf8(shell.take_errors()).unwrap(), "Error: No home directory located\n");
}

#[test]
fn cd_missing_directory_reports_the_error() {
    let mut world = World::standard();
    let (code, mut shell) = std_builtin_in(&mut world, "cd", vec!["/thisdoesnotexist".into()]);
    assert_eq!(code, 1);
    assert_eq!(String::from_utf8(shell.take_errors()).unwrap(), "Error: No such file or directory (os error 2)\n");
}

#[test]
fn cd_dot_dot_over_a_missing_name_fails() {
    let mut world = World::standard();
    let (code, mut shell) = std_builtin_in(&mut world, "cd", vec!["./nothere/..".into()]);
    assert_eq!(code, 1);
    assert_eq!(String::from_utf8(shell.take_errors()).unwrap(), "Error: failed enumerating path\n");
    assert_eq!(world.cwd, "/home/user");
}

#[test]
fn cd_dot_dot_over_a_directory_goes_up() {
    let mut world = World::standard();
    let (code, _) = std_builtin_in(&mut world, "cd", vec!["./src/..".into()]);
    assert_eq!(code, 0);
    assert_eq!(world.cwd, "/home/user");
}

#[test]
fn cd_searches_cdpath() {
    let mut world = World::standard();
    world.cwd = "/".to_string();
    world.cdpath = Some(":/nowhere:/home/user".to_string());
    let (code, _) = std_builtin_in(&mut world, "cd", vec!["src".into()]);
    assert_eq!(code, 0);
    assert_eq!(world.cwd, "/home/user/src");
}

#[test]
fn cd_refuses_a_repeated_flag() {
    assert_eq!(std_builtin("cd", vec!["-p".into(), "-p".into(), "/".into()]), -1);
}

#[test]
fn source_runs_lines_until_one_fails() {
    let mut world = World::standard();
    let (code, _) = std_builtin_in(&mut world, "source", vec!["script".into()]);
    assert_eq!(code, 0);
    assert_eq!(world.cwd, "/tmp");
}

#[test]
fn source_without_a_file_name_fails() {
    let mut world = World::standard();
    let (code, mut shell) = std_builtin_in(&mut world, "source", Vec::new());
    assert_eq!(code, -1);
    assert_eq!(String::from_utf8(shell.take_errors()).unwrap(), "no filename provided\n");
}

#[test]
fn source_reports_a_missing_script() {
    let mut world = World::standard();
    let (code, mut shell) = std_builtin_in(&mut world, ".", vec!["missing".into()]);
    assert_eq!(code, -1);
    assert_eq!(String::from_utf8(shell.take_errors()).unwrap(), "script not found\n");
}

#[test]
fn source_searches_the_given_directories() {
    let mut world = World::standard();
    let (code, _) = std_builtin_in(&mut world, "source", vec!["-p".into(), "/nowhere:/tmp".into(), "ok".into()]);
    assert_eq!(code, 0);
}

#[test]
fn eval_runs_its_arguments() {
    assert_eq!(std_builtin("eval", vec!["false".into()]), 1);
    assert_eq!(std_builtin("eval", vec!["eval".into(), "true".into()]), 0);
}
