use smultron::apps::init::envvars::{build_env_str, get_env, set_env, EnvTable};
use smultron::apps::init::lexer::{expand_line, tokenize_command, Token, TokenError, TokenKind};
use smultron::apps::init::parse::{parse_stage, split_stages, SplitError, StageError};
use smultron::apps::init::paths::{is_builtin, resolve_bin_path, resolve_path, set_cwd};
use smultron::apps::init::shell::{self, Event, LineEditor, Request, Shell, Step, PROMPT};

/// The write calls `parts`, one per part.
fn w(parts: &[&[u8]]) -> Vec<Vec<u8>> {
    parts.iter().map(|p| p.to_vec()).collect()
}

fn shell() -> Shell {
    let (sh, banner) = shell::run();
    assert_eq!(banner, w(&[b"smultron shell (userspace)\n", b"type 'help' for commands\n"]));
    sh
}

fn exec_req(s: &Step) -> (Vec<u8>, Vec<u8>, Vec<u8>, Option<Vec<u8>>, bool) {
    match &s.request {
        Some(Request::Exec { path, args, env, stdin, capture }) => {
            (path.clone(), args.clone(), env.clone(), stdin.clone(), *capture)
        }
        _ => panic!("expected a program to run"),
    }
}

#[test]
fn env_vars_are_set_and_read_back() {
    let mut t = EnvTable::new();
    assert!(set_env(&mut t, b"A", b"1").is_empty());
    assert!(set_env(&mut t, b"B", b"2").is_empty());
    assert_eq!(get_env(&t, b"A"), Some(&b"1"[..]));
    assert!(set_env(&mut t, b"A", b"3").is_empty());
    assert_eq!(get_env(&t, b"A"), Some(&b"3"[..]));
    assert_eq!(get_env(&t, b"C"), None);
    assert_eq!(build_env_str(&t), b"A=3\nB=2\n".to_vec());
    assert_eq!(set_env(&mut t, &[b'k'; 33], b"v"), b"error: env var too long\n".to_vec());
    assert_eq!(set_env(&mut t, b"k", &[b'v'; 65]), b"error: env var too long\n".to_vec());
    assert!(set_env(&mut t, &[b'k'; 32], &[b'v'; 64]).is_empty());
}

#[test]
fn env_table_holds_sixteen_vars() {
    let mut t = EnvTable::new();
    for i in 0..16u8 {
        assert!(set_env(&mut t, &[b'a' + i], b"x").is_empty());
    }
    assert_eq!(set_env(&mut t, b"Z", b"x"), b"error: too many env vars\n".to_vec());
    assert!(set_env(&mut t, b"a", b"y").is_empty());
    assert_eq!(get_env(&t, b"a"), Some(&b"y"[..]));
}

#[test]
fn dollar_names_expand() {
    let mut t = EnvTable::new();
    set_env(&mut t, b"HOME", b"/h");
    assert_eq!(expand_line(&t, b"cd $HOME/x", 512), b"cd /h/x".to_vec());
    assert_eq!(expand_line(&t, b"a $ b", 512), b"a $ b".to_vec());
    assert_eq!(expand_line(&t, b"[$NOPE]", 512), b"[]".to_vec());
    assert_eq!(expand_line(&t, b"$HOME", 1), b"/".to_vec());
}

#[test]
fn tokens_of_a_line() {
    let (parsed, tokens) = tokenize_command(b"echo \"a b\" 'c' d\\ e | tee>f").unwrap();
    assert_eq!(parsed, b"echoa bcd eteef".to_vec());
    let w = |start, len| Token { kind: TokenKind::Word, start, len };
    let op = |kind| Token { kind, start: 0, len: 0 };
    assert_eq!(
        tokens,
        vec![w(0, 4), w(4, 3), w(7, 1), w(8, 3), op(TokenKind::Pipe), w(11, 3), op(TokenKind::RedirectOut), w(14, 1)]
    );
}

#[test]
fn tokenizer_errors() {
    assert_eq!(tokenize_command(b"a\\").err(), Some(TokenError::TrailingEscape));
    assert_eq!(tokenize_command(b"'a").err(), Some(TokenError::UnclosedQuote));
    assert_eq!(tokenize_command(b"\"a\\").err(), Some(TokenError::TrailingEscape));
    assert_eq!(tokenize_command(&[b'x'; 513]).err(), Some(TokenError::LineTooLong));
    let many = vec!["w"; 65].join(" ");
    assert_eq!(tokenize_command(many.as_bytes()).err(), Some(TokenError::TooManyTokens));
    assert_eq!(TokenError::UnclosedQuote.message(), "unclosed quote");
    assert_eq!(tokenize_command(b"   ").unwrap().1.len(), 0);
}

#[test]
fn stages_split_at_pipes() {
    let (p, t) = tokenize_command(b"a | b c | d").unwrap();
    assert_eq!(split_stages(&t).unwrap(), vec![(0, 1), (2, 4), (5, 6)]);
    let (_, t) = tokenize_command(b"a | | b").unwrap();
    assert_eq!(split_stages(&t).err(), Some(SplitError::EmptyStage));
    let (_, t) = tokenize_command(b"a|b|c|d|e").unwrap();
    assert_eq!(split_stages(&t).err(), Some(SplitError::TooManyStages));
    let st = parse_stage(&tokenize_command(b"b c").unwrap().1, 0, 2, b"bc", false, false).unwrap();
    assert_eq!(st.cmd, b"b".to_vec());
    assert_eq!(st.args, b"c".to_vec());
    let _ = p;
}

#[test]
fn stage_errors() {
    let check = |line: &[u8], allow_in: bool, allow_out: bool| {
        let (p, t) = tokenize_command(line).unwrap();
        parse_stage(&t, 0, t.len(), &p, allow_in, allow_out).err()
    };
    assert_eq!(check(b"cat < f", false, true), Some(StageError::InvalidIn));
    assert_eq!(check(b"cat <", true, true), Some(StageError::MissingIn));
    assert_eq!(check(b"cat > f", true, false), Some(StageError::InvalidOut));
    assert_eq!(check(b"cat > f > g", true, true), Some(StageError::InvalidOut));
    assert_eq!(check(b"cat >", true, true), Some(StageError::MissingOut));
    assert_eq!(check(b"cat | x", true, true), Some(StageError::UnexpectedPipe));
    assert_eq!(check(b"< f", true, true), Some(StageError::EmptyStage));
    let many = vec!["w"; 33].join(" ");
    assert_eq!(check(many.as_bytes(), true, true), Some(StageError::TooManyTokens));
    let long = format!("c {}", "a".repeat(192));
    assert_eq!(check(long.as_bytes(), true, true), Some(StageError::ArgsTooLong));
    assert_eq!(StageError::InvalidIn.message(), "parse error: invalid '<' placement\n");
    let (p, t) = tokenize_command(b"cat < in > out").unwrap();
    let st = parse_stage(&t, 0, t.len(), &p, true, true).unwrap();
    assert_eq!(st.in_file, Some(b"in".to_vec()));
    assert_eq!(st.out_file, Some(b"out".to_vec()));
}

#[test]
fn paths_and_builtins() {
    for b in ["help", "clear", "exit", "cd", "env", "export"] {
        assert!(is_builtin(b.as_bytes()));
    }
    assert!(!is_builtin(b"ls"));
    assert_eq!(resolve_bin_path(b"ls"), Some(b"/bin/ls".to_vec()));
    assert_eq!(resolve_bin_path(b"/x/y"), Some(b"/x/y".to_vec()));
    assert_eq!(resolve_bin_path(&[b'c'; 59]), None);
    assert_eq!(resolve_bin_path(&[b'c'; 58]).unwrap().len(), 63);
    let mut t = EnvTable::new();
    set_env(&mut t, b"CWD", b"/bin");
    assert_eq!(resolve_path(&t, b"f"), Some(b"/bin/f".to_vec()));
    assert_eq!(resolve_path(&t, b"/f"), Some(b"/f".to_vec()));
    set_env(&mut t, b"CWD", b"/");
    assert_eq!(resolve_path(&t, b"f"), Some(b"/f".to_vec()));
    assert_eq!(resolve_path(&t, &[b'p'; 128]), None);
}

#[test]
fn cd_sets_the_working_directory() {
    let mut t = EnvTable::new();
    set_env(&mut t, b"CWD", b"/");
    assert!(set_cwd(&mut t, b" /bin/ ").is_empty());
    assert_eq!(get_env(&t, b"CWD"), Some(&b"/bin"[..]));
    set_cwd(&mut t, b"sub");
    assert_eq!(get_env(&t, b"CWD"), Some(&b"/bin/sub"[..]));
    set_cwd(&mut t, b"");
    assert_eq!(get_env(&t, b"CWD"), Some(&b"/"[..]));
}

#[test]
fn builtins_at_the_prompt() {
    let mut sh = shell();
    assert_eq!(PROMPT, "smultron$ ");
    let s = sh.dispatch(b"help");
    assert_eq!(s.output.len(), 3);
    assert_eq!(s.output[0], b"commands: help, clear, exit, env, export, cd, <binary in /bin>\n".to_vec());
    assert!(!s.exit);
    let s = sh.dispatch(b"   ");
    assert!(s.output.is_empty() && s.request.is_none());
    let s = sh.dispatch(b"clear");
    assert_eq!(s.output, w(&[b"\x1b[2J\x1b[H"]));
    let s = sh.dispatch(b"export A = 1");
    assert!(s.output.is_empty());
    assert!(!s.exit);
    let s = sh.dispatch(b"env");
    assert_eq!(s.output, w(&[b"CWD=/\nA=1\n"]));
    let s = sh.dispatch(b"export nothing");
    assert_eq!(s.output, w(&[b"usage: export KEY=VALUE\n"]));
    let s = sh.dispatch(b"cd /bin");
    assert!(s.output.is_empty());
    assert!(!s.exit);
    assert_eq!(sh.dispatch(b"env").output, w(&[b"CWD=/bin\nA=1\n"]));
    let s = sh.dispatch(b"echo 'unclosed");
    assert_eq!(s.output, w(&[b"parse error: ", b"unclosed quote", b"\n"]));
    assert!(!sh.dispatch(b"exit now | cat").exit);
    let s = sh.dispatch(b"  exit  ");
    assert!(s.exit);
}

#[test]
fn a_program_runs_with_the_environment() {
    let mut sh = shell();
    sh.dispatch(b"export X=$CWD");
    let s = sh.dispatch(b"echo \"hi  there\" $X");
    let (path, args, env, stdin, capture) = exec_req(&s);
    assert_eq!(path, b"/bin/echo".to_vec());
    assert_eq!(args, b"hi  there /".to_vec());
    assert_eq!(env, b"CWD=/\nX=/\n".to_vec());
    assert_eq!(stdin, None);
    assert!(!capture);
    let s = sh.resume(Event::ExecDone { status: 0, output: vec![] });
    assert!(s.output.is_empty() && s.request.is_none());
    let s = sh.dispatch(b"nothing");
    let _ = exec_req(&s);
    let s = sh.resume(Event::ExecDone { status: u64::MAX, output: vec![] });
    assert_eq!(s.output, w(&[b"unknown command: ", b"nothing", b"\n"]));
}

#[test]
fn a_pipe_feeds_output_to_the_next_program() {
    let mut sh = shell();
    let s = sh.dispatch(b"echo hi | tee /t.txt");
    let (path, _, _, stdin, capture) = exec_req(&s);
    assert_eq!(path, b"/bin/echo".to_vec());
    assert_eq!(stdin, None);
    assert!(capture);
    let s = sh.resume(Event::ExecDone { status: 0, output: b"hi\n".to_vec() });
    let (path, args, _, stdin, capture) = exec_req(&s);
    assert_eq!(path, b"/bin/tee".to_vec());
    assert_eq!(args, b"/t.txt".to_vec());
    assert_eq!(stdin, Some(b"hi\n".to_vec()));
    assert!(!capture);
    let s = sh.resume(Event::ExecDone { status: 0, output: vec![] });
    assert!(s.output.is_empty() && s.request.is_none());
    assert!(sh.dispatch(b"help").request.is_none());
}

#[test]
fn output_redirection_writes_a_file() {
    let mut sh = shell();
    let s = sh.dispatch(b"echo hello > note.txt");
    let (_, args, _, _, capture) = exec_req(&s);
    assert_eq!(args, b"hello".to_vec());
    assert!(capture);
    let s = sh.resume(Event::ExecDone { status: 0, output: b"hello\n".to_vec() });
    match &s.request {
        Some(Request::WriteFile { path, data }) => {
            assert_eq!(path, &b"/note.txt".to_vec());
            assert_eq!(data, &b"hello\n".to_vec());
        }
        _ => panic!("expected a file write"),
    }
    let s = sh.resume(Event::FileWritten(false));
    assert_eq!(s.output, w(&[b"redirection error: cannot write ", b"/note.txt", b"\n"]));
}

#[test]
fn input_redirection_reads_a_file() {
    let mut sh = shell();
    let s = sh.dispatch(b"cat < /hello.txt");
    match &s.request {
        Some(Request::ReadFile { path }) => assert_eq!(path, &b"/hello.txt".to_vec()),
        _ => panic!("expected a file read"),
    }
    let s = sh.resume(Event::FileRead(Some(b"data".to_vec())));
    let (path, args, _, stdin, capture) = exec_req(&s);
    assert_eq!(path, b"/bin/cat".to_vec());
    assert!(args.is_empty());
    assert_eq!(stdin, Some(b"data".to_vec()));
    assert!(!capture);
    sh.resume(Event::ExecDone { status: 0, output: vec![] });
    sh.dispatch(b"cat < /missing");
    let s = sh.resume(Event::FileRead(None));
    assert_eq!(s.output, w(&[b"redirection error: cannot read ", b"/missing", b"\n"]));
}

#[test]
fn pipeline_errors() {
    let mut sh = shell();
    assert_eq!(sh.dispatch(b"a | | b").output, w(&[b"parse error: empty pipeline stage\n"]));
    assert_eq!(sh.dispatch(b"a|b|c|d|e").output, w(&[b"parse error: too many pipeline stages\n"]));
    assert_eq!(
        sh.dispatch(b"cd x | echo").output,
        w(&[b"error: pipes/redirection are only supported for /bin commands\n"])
    );
    let s = sh.dispatch(b"echo a | cat < f");
    let _ = exec_req(&s);
    let s = sh.resume(Event::ExecDone { status: 0, output: b"a\n".to_vec() });
    assert_eq!(s.output, w(&[b"parse error: invalid '<' placement\n"]));
    assert_eq!(sh.dispatch(b"echo >").output, w(&[b"parse error: missing file after '>'\n"]));
}

#[test]
fn typing_a_line() {
    let mut ed = LineEditor::new();
    assert_eq!(ed.read_line_step(b'a').echo, b"a".to_vec());
    ed.read_line_step(b'b');
    assert_eq!(ed.read_line_step(8).echo, vec![8, b' ', 8]);
    let st = ed.read_line_step(b'\r');
    assert_eq!(st.echo, b"\n".to_vec());
    assert_eq!(st.line, Some(b"a".to_vec()));
    assert!(ed.buf.is_empty());
    assert!(ed.read_line_step(127).echo.is_empty());
}
