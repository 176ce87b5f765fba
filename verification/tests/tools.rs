use smultron::apps::cat;
use smultron::apps::echo;
use smultron::apps::ls::{self, format_listing, LS_BUF};
use smultron::apps::sed::{self, parse_delimited, parse_script, substitute, SedStart};
use smultron::apps::tee::{self, TeeStart};
use smultron::apps::tool::{cwd_of, env_value, ToolEvent, ToolRequest};
use smultron::bytes::{is_valid_utf8, str_or_empty};
use smultron::text::{split_words, trim};

/// The write calls `parts`, one per part.
fn w(parts: &[&[u8]]) -> Vec<Vec<u8>> {
    parts.iter().map(|p| p.to_vec()).collect()
}

#[test]
fn echo_and_env_print_their_input() {
    assert_eq!(echo::run("hello world"), w(&[b"hello world", b"\n"]));
    assert_eq!(echo::run(""), w(&[b"\n"]));
    assert_eq!(smultron::apps::env::run("A=1\nCWD=/\n"), w(&[b"A=1\nCWD=/\n"]));
    assert!(smultron::apps::env::run("").is_empty());
}

#[test]
fn ls_prints_one_name_per_line() {
    assert_eq!(format_listing(b"hello.txt\0bin\0"), w(&[b"hello.txt", b"\n", b"bin", b"\n"]));
    assert!(format_listing(b"").is_empty());
    assert_eq!(format_listing(b"a\0\0b"), w(&[b"a", b"\n", b"b", b"\n"]));
}

#[test]
fn ls_asks_for_the_listing_and_prints_it() {
    let st = ls::run("/bin");
    assert!(st.output.is_empty());
    match st.request {
        ToolRequest::ListDir(p, cap) => {
            assert_eq!(p, b"/bin".to_vec());
            assert_eq!(cap, LS_BUF);
            assert_eq!(cap, 1024);
        }
        _ => panic!(),
    }
    let st = ls::resume(ToolEvent::DirListed(b"init\0echo\0".to_vec()));
    assert_eq!(st.output, w(&[b"init", b"\n", b"echo", b"\n"]));
    assert!(matches!(st.request, ToolRequest::Done));
    let st = ls::resume(ToolEvent::DirListed(vec![]));
    assert!(st.output.is_empty());
}

#[test]
fn text_trim_and_words() {
    assert_eq!(trim(b"  a b \t\n"), b"a b".to_vec());
    assert_eq!(trim("\u{3000}x\u{a0}".as_bytes()), b"x".to_vec());
    assert_eq!(trim(b"   "), Vec::<u8>::new());
    assert_eq!(split_words(b" a  bc\td ", 16), Some(vec![b"a".to_vec(), b"bc".to_vec(), b"d".to_vec()]));
    assert_eq!(split_words(b"a b c", 2), None);
    assert_eq!(split_words(b"", 2), Some(vec![]));
}

#[test]
fn utf8_checks_go_through_std() {
    assert!(is_valid_utf8(b"plain"));
    assert!(is_valid_utf8("\u{e9}".as_bytes()));
    assert!(!is_valid_utf8(&[0xff, 0x41]));
    assert_eq!(str_or_empty(b"abc"), "abc");
    assert_eq!(str_or_empty(&[0xc3]), "");
}

#[test]
fn sed_scripts() {
    let s = parse_script(b"s/old/new/").unwrap();
    assert_eq!(s.pattern, b"old".to_vec());
    assert_eq!(s.replacement, b"new".to_vec());
    assert!(!s.global);
    let s = parse_script(b"s|a\\|b|c|g").unwrap();
    assert_eq!(s.pattern, b"a|b".to_vec());
    assert_eq!(s.replacement, b"c".to_vec());
    assert!(s.global);
    assert!(parse_script(b"s/a/b").is_none());
    assert!(parse_script(b"s/a/b/x").is_none());
    assert!(parse_script(b"y/a/b/").is_none());
    assert!(parse_script(b"s/").is_none());
    assert!(parse_script(&[b's', 0, b'a', 0, b'b', 0]).is_none());
    assert_eq!(parse_delimited(b"ab/cd", 0, b'/', 8), Some((b"ab".to_vec(), 3)));
    assert_eq!(parse_delimited(b"abcd/", 0, b'/', 2), None);
    assert_eq!(parse_delimited(b"abcd", 0, b'/', 8), None);
}

#[test]
fn sed_substitution() {
    assert_eq!(substitute(b"a-a-a", 4096, b"a", b"bb", false), b"bb-a-a".to_vec());
    assert_eq!(substitute(b"a-a-a", 4096, b"a", b"bb", true), b"bb-bb-bb".to_vec());
    assert_eq!(substitute(b"xyz", 4096, b"q", b"r", true), b"xyz".to_vec());
    assert_eq!(substitute(b"xyz", 2, b"", b"r", true), b"xy".to_vec());
    assert_eq!(substitute(b"aaaa", 3, b"a", b"bb", true), b"bbb".to_vec());
}

#[test]
fn sed_start_messages() {
    match sed::run("", "/") {
        SedStart::Stop(m) => assert_eq!(m, b"usage: sed s/old/new/[g] [file...]\n".to_vec()),
        SedStart::Run(_) => panic!(),
    }
    match sed::run("q/a/b/", "/") {
        SedStart::Stop(m) => assert_eq!(
            m,
            b"sed: unsupported script (expected s<delim>old<delim>new<delim>[g])\n".to_vec()
        ),
        SedStart::Run(_) => panic!(),
    }
    let many = vec!["x"; 17].join(" ");
    match sed::run(&format!("s/a/b/ {}", many), "/") {
        SedStart::Stop(m) => assert_eq!(m, b"sed: too many arguments\n".to_vec()),
        SedStart::Run(_) => panic!(),
    }
}

#[test]
fn sed_on_stdin() {
    let mut s = match sed::run("s/l/L/g", "/") {
        SedStart::Run(s) => s,
        SedStart::Stop(_) => panic!(),
    };
    let st = s.start();
    assert!(matches!(st.request, ToolRequest::ReadStdin));
    let st = s.resume(ToolEvent::StdinRead(Some(b"hello".to_vec())));
    assert_eq!(st.output, w(&[b"heLLo"]));
    assert!(matches!(st.request, ToolRequest::ReadStdin));
    let st = s.resume(ToolEvent::StdinRead(Some(vec![])));
    assert!(matches!(st.request, ToolRequest::Done));
    let st = s.resume(ToolEvent::StdinRead(None));
    assert_eq!(st.output, w(&[b"sed: read error\n"]));
}

#[test]
fn sed_on_files() {
    let mut s = match sed::run("s/a/b/ one /two", "/dir") {
        SedStart::Run(s) => s,
        SedStart::Stop(_) => panic!(),
    };
    let st = s.start();
    match st.request {
        ToolRequest::ReadFile(p) => assert_eq!(p, b"/dir/one".to_vec()),
        _ => panic!(),
    }
    let st = s.resume(ToolEvent::FileRead(Some(b"aaa".to_vec())));
    assert_eq!(st.output, w(&[b"baa"]));
    match st.request {
        ToolRequest::ReadFile(p) => assert_eq!(p, b"/two".to_vec()),
        _ => panic!(),
    }
    let st = s.resume(ToolEvent::FileRead(None));
    assert_eq!(st.output, w(&[b"sed: cannot read ", b"/two", b"\n"]));
    assert!(matches!(st.request, ToolRequest::Done));
}

#[test]
fn sed_skips_paths_that_do_not_fit() {
    let long = "p".repeat(130);
    let mut s = match sed::run(&format!("s/a/b/ {}", long), "/") {
        SedStart::Run(s) => s,
        SedStart::Stop(_) => panic!(),
    };
    let st = s.start();
    assert_eq!(st.output, w(&[b"sed: path too long\n"]));
    assert!(matches!(st.request, ToolRequest::Done));
}

#[test]
fn tee_copies_input_to_output_and_files() {
    let mut t = match tee::run("/a /b") {
        TeeStart::Run(t) => t,
        TeeStart::Stop(_) => panic!(),
    };
    let st = t.resume(ToolEvent::StdinRead(Some(b"abc".to_vec())));
    assert_eq!(st.output, w(&[b"abc"]));
    assert!(matches!(st.request, ToolRequest::ReadStdin));
    let st = t.resume(ToolEvent::StdinRead(Some(b"de".to_vec())));
    assert_eq!(st.output, w(&[b"de"]));
    let st = t.resume(ToolEvent::StdinRead(Some(vec![])));
    match st.request {
        ToolRequest::WriteFile(f, d) => {
            assert_eq!(f, b"/a".to_vec());
            assert_eq!(d, b"abcde".to_vec());
        }
        _ => panic!(),
    }
    let st = t.resume(ToolEvent::FileWritten(false));
    assert_eq!(st.output, w(&[b"tee: cannot write ", b"/a", b"\n"]));
    match st.request {
        ToolRequest::WriteFile(f, _) => assert_eq!(f, b"/b".to_vec()),
        _ => panic!(),
    }
    let st = t.resume(ToolEvent::FileWritten(true));
    assert!(st.output.is_empty());
    assert!(matches!(st.request, ToolRequest::Done));
}

#[test]
fn tee_limits() {
    let many = vec!["f"; 17].join(" ");
    match tee::run(&many) {
        TeeStart::Stop(m) => assert_eq!(m, b"tee: too many output files\n".to_vec()),
        TeeStart::Run(_) => panic!(),
    }
    let mut t = match tee::run("") {
        TeeStart::Run(t) => t,
        TeeStart::Stop(_) => panic!(),
    };
    let st = t.resume(ToolEvent::StdinRead(Some(vec![1u8; 5000])));
    assert_eq!(st.output, vec![vec![1u8; 5000]]);
    assert_eq!(t.stream.len(), 4096);
    let st = t.resume(ToolEvent::StdinRead(None));
    assert_eq!(st.output, w(&[b"tee: read error\n"]));
}

#[test]
fn cat_reads_files_and_stdin() {
    let (c, st) = cat::run(" notes.txt ", "/docs/");
    assert!(!c.from_stdin);
    match st.request {
        ToolRequest::ReadFile(p) => assert_eq!(p, b"/docs/notes.txt".to_vec()),
        _ => panic!(),
    }
    let st = c.resume(ToolEvent::FileRead(Some(b"line".to_vec())));
    assert_eq!(st.output, w(&[b"line", b"\n"]));
    let st = c.resume(ToolEvent::FileRead(Some(b"line\n".to_vec())));
    assert_eq!(st.output, w(&[b"line\n"]));
    let st = c.resume(ToolEvent::FileRead(Some(vec![])));
    assert!(st.output.is_empty());
    let st = c.resume(ToolEvent::FileRead(None));
    assert_eq!(st.output, w(&[b"cat: cannot read ", b"/docs/notes.txt", b"\n"]));

    let (c, st) = cat::run("", "/");
    assert!(c.from_stdin);
    assert!(matches!(st.request, ToolRequest::ReadStdin));
    let st = c.resume(ToolEvent::StdinRead(Some(b"xy".to_vec())));
    assert_eq!(st.output, w(&[b"xy"]));
    assert!(matches!(st.request, ToolRequest::ReadStdin));
    let st = c.resume(ToolEvent::StdinRead(None));
    assert!(matches!(st.request, ToolRequest::Done));
}

#[test]
fn cat_paths() {
    assert_eq!(cat::resolve_path(b"/abs", b"/x"), Some(b"/abs".to_vec()));
    assert_eq!(cat::resolve_path(b"f", b"/"), Some(b"/f".to_vec()));
    assert_eq!(cat::resolve_path(b"f", b"/d"), Some(b"/d/f".to_vec()));
    assert_eq!(cat::resolve_path(b"f", b""), Some(b"/f".to_vec()));
    assert_eq!(cat::resolve_path(&[b'p'; 128], b"/"), None);
    let (_, st) = cat::run(&"p".repeat(130), "/");
    assert_eq!(st.output, w(&[b"cat: path too long\n"]));
}

#[test]
fn programs_read_their_environment_text() {
    let env = b"A=1\nCWD=/home\nCWD=/other\n";
    assert_eq!(env_value(env, b"CWD"), Some(b"/home".to_vec()));
    assert_eq!(env_value(env, b"A"), Some(b"1".to_vec()));
    assert_eq!(env_value(env, b"B"), None);
    assert_eq!(env_value(b"AB=2\n", b"A"), None);
    assert_eq!(env_value(b"K=a=b", b"K"), Some(b"a=b".to_vec()));
    assert_eq!(cwd_of(env), b"/home".to_vec());
    assert_eq!(cwd_of(b""), b"/".to_vec());
}
