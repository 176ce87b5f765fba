use smultron::libos::{
    exec_str, exec_str_env, list_dir_result, path_cstr, read_file_result, set_syscall_gate,
    SyscallGate,
};
use smultron::process::{begin_io, ExecStart, IoState, Kernel};
use smultron::syscall::{
    copy_cstr, decode_syscall, init, plan_exec_io, push_console_byte, read_dir_in_bounds,
    sys_exec, sys_exec_io, sys_read_dir, sys_read_file, sys_read_stdin, sys_write_file,
    CStrReader, CStrState, ExecIoPlan, ExecIoRequest, SyscallAction, SyscallNumber,
    SYSCALL_ERROR,
};
use smultron::vfs::{read_file, Vfs};

fn kernel() -> Kernel {
    Kernel::new(Vfs::standard(vec![], vec![], vec![], vec![], vec![], vec![], vec![]))
}

#[test]
fn numbers_of_the_calls() {
    assert_eq!(SyscallNumber::Read.number(), 0);
    assert_eq!(SyscallNumber::Write.number(), 1);
    assert_eq!(SyscallNumber::Open.number(), 2);
    assert_eq!(SyscallNumber::Fork.number(), 57);
    assert_eq!(SyscallNumber::Execve.number(), 59);
    assert_eq!(SyscallNumber::Exit.number(), 60);
    assert_eq!(SyscallNumber::ReadDir.number(), 78);
    assert_eq!(SyscallNumber::ReadFile.number(), 79);
    assert_eq!(SyscallNumber::ExecIo.number(), 80);
    assert_eq!(SyscallNumber::WriteFile.number(), 81);
    assert_eq!(init(), "[ok] syscall MSR init scaffolded");
}

#[test]
fn decoding_read_and_write() {
    assert_eq!(decode_syscall(0, 0, 0x1000, 4), SyscallAction::ReadStdin { buf: 0x1000, len: 4 });
    assert_eq!(decode_syscall(0, 1, 0x1000, 4), SyscallAction::Reply(SYSCALL_ERROR));
    assert_eq!(decode_syscall(0, 0, 0, 4), SyscallAction::Reply(SYSCALL_ERROR));
    assert_eq!(decode_syscall(0, 0, 0x1000, 0), SyscallAction::Reply(0));
    assert_eq!(decode_syscall(1, 1, 0x2000, 3), SyscallAction::WriteOut { buf: 0x2000, len: 3 });
    assert_eq!(decode_syscall(1, 2, 0x2000, 3), SyscallAction::WriteOut { buf: 0x2000, len: 3 });
    assert_eq!(decode_syscall(1, 0, 0x2000, 3), SyscallAction::Reply(SYSCALL_ERROR));
    assert_eq!(decode_syscall(1, 1, 0x2000, 0), SyscallAction::Reply(0));
}

#[test]
fn decoding_the_other_calls() {
    assert_eq!(decode_syscall(59, 0, 1, 2), SyscallAction::Reply(SYSCALL_ERROR));
    assert_eq!(decode_syscall(59, 5, 0, 0), SyscallAction::Exec { path: 5, args: 0, env: 0 });
    assert_eq!(decode_syscall(60, 9, 9, 9), SyscallAction::Reply(0));
    assert_eq!(decode_syscall(78, 1, 2, 3), SyscallAction::ListDir { path: 1, buf: 2, len: 3 });
    assert_eq!(decode_syscall(78, 1, 2, 0), SyscallAction::Reply(SYSCALL_ERROR));
    assert_eq!(decode_syscall(79, 1, 2, 3), SyscallAction::ReadFile { path: 1, buf: 2, len: 3 });
    assert_eq!(decode_syscall(79, 0, 2, 3), SyscallAction::Reply(SYSCALL_ERROR));
    assert_eq!(decode_syscall(80, 7, 0, 0), SyscallAction::ExecIo { req: 7 });
    assert_eq!(decode_syscall(80, 0, 0, 0), SyscallAction::Reply(SYSCALL_ERROR));
    assert_eq!(decode_syscall(81, 1, 2, 0), SyscallAction::WriteFile { path: 1, buf: 2, len: 0 });
    assert_eq!(decode_syscall(81, 1, 0, 5), SyscallAction::Reply(SYSCALL_ERROR));
    assert_eq!(decode_syscall(2, 1, 2, 3), SyscallAction::Reply(SYSCALL_ERROR));
    assert_eq!(decode_syscall(57, 0, 0, 0), SyscallAction::Reply(SYSCALL_ERROR));
    assert_eq!(decode_syscall(1000, 0, 0, 0), SyscallAction::Reply(SYSCALL_ERROR));
}

#[test]
fn strings_end_at_nul_within_their_room() {
    assert_eq!(copy_cstr(b"abc\0def", 64), Some(b"abc".to_vec()));
    assert_eq!(copy_cstr(b"\0", 64), Some(Vec::new()));
    assert_eq!(copy_cstr(b"abcd\0", 4), None);
    assert_eq!(copy_cstr(b"abc\0", 4), Some(b"abc".to_vec()));
    assert_eq!(copy_cstr(b"\0", 0), None);
    let mut r = CStrReader::new(3);
    r.feed(b'x');
    assert_eq!(r.state, CStrState::Reading);
    r.feed(b'y');
    r.feed(b'z');
    assert_eq!(r.state, CStrState::TooLong);
    assert_eq!(r.finish(), None);
}

#[test]
fn reading_stdin_takes_redirected_bytes() {
    let mut io = IoState::new();
    let r = sys_read_stdin(&mut io, 4);
    assert!(r.console && r.bytes.is_empty());
    begin_io(&mut io, Some(b"hello"), false);
    let r = sys_read_stdin(&mut io, 3);
    assert!(!r.console);
    assert_eq!(r.bytes, b"hel".to_vec());
    let r = sys_read_stdin(&mut io, 10);
    assert_eq!(r.bytes, b"lo".to_vec());
    let r = sys_read_stdin(&mut io, 10);
    assert!(!r.console && r.bytes.is_empty());
}

#[test]
fn console_reads_stop_at_line_end_or_full() {
    let mut got = Vec::new();
    assert!(!push_console_byte(&mut got, 3, b'a'));
    assert!(push_console_byte(&mut got, 3, b'\n'));
    assert_eq!(got, b"a\n".to_vec());
    let mut got = Vec::new();
    assert!(!push_console_byte(&mut got, 2, b'x'));
    assert!(push_console_byte(&mut got, 2, b'y'));
    let mut got = Vec::new();
    assert!(push_console_byte(&mut got, 5, b'\r'));
}

#[test]
fn exec_io_requests_are_checked_and_limited() {
    let req = ExecIoRequest {
        path_ptr: 1,
        args_ptr: 0,
        env_ptr: 3,
        stdin_ptr: 4,
        stdin_len: 10_000,
        stdout_ptr: 5,
        stdout_cap: 100,
        status_ptr: 6,
    };
    assert_eq!(
        plan_exec_io(&req),
        Some(ExecIoPlan { read_args: false, read_env: true, stdin_len: Some(4096), stdout_cap: Some(100) })
    );
    let no_io = ExecIoRequest { stdin_ptr: 0, stdout_cap: 0, ..req };
    assert_eq!(plan_exec_io(&no_io).unwrap().stdin_len, None);
    assert_eq!(plan_exec_io(&no_io).unwrap().stdout_cap, None);
    assert_eq!(plan_exec_io(&ExecIoRequest { status_ptr: 0, ..req }), None);
    assert_eq!(plan_exec_io(&ExecIoRequest { path_ptr: 0, ..req }), None);
}

#[test]
fn file_calls_answer_lengths_or_errors() {
    let mut k = kernel();
    let r = sys_read_file(&k, b"/hello.txt", 5);
    assert_eq!(r.ret, 5);
    assert_eq!(r.out, b"hello".to_vec());
    let r = sys_read_file(&k, b"/missing", 5);
    assert_eq!(r.ret, SYSCALL_ERROR);
    assert_eq!(sys_write_file(&mut k, b"/out", b"data"), 4);
    let r = sys_read_file(&k, b"/out", 3);
    assert_eq!((r.ret, r.out), (3, b"dat".to_vec()));
    let r = sys_read_file(&k, b"/out", 100);
    assert_eq!((r.ret, r.out), (4, b"data".to_vec()));
    assert_eq!(read_file(&k.vfs, "/out"), Some(&b"data"[..]));
    assert_eq!(sys_write_file(&mut k, b"", b"data"), SYSCALL_ERROR);
    assert_eq!(sys_write_file(&mut k, &[0x2f, 0xff], b"data"), SYSCALL_ERROR);
    assert!(read_dir_in_bounds(&k, b"/"));
    let r = sys_read_dir(&k, b"/", 100);
    assert_eq!(r.out, b"hello.txt\0bin\0out\0".to_vec());
    assert_eq!(r.ret, 18);
}

#[test]
fn exec_calls_start_programs() {
    let mut k = kernel();
    assert!(matches!(sys_exec(&mut k, b"/bin/nothing", b"", b""), ExecStart::Done(u64::MAX)));
    assert!(matches!(sys_exec(&mut k, b"/bin/init", b"", b""), ExecStart::Done(u64::MAX)));
    assert!(!k.procs.slots_in_use[0]);
    let r = sys_exec_io(&mut k, b"/bin/echo", b"x", b"", Some(b"in"), true);
    assert!(matches!(r, ExecStart::Done(u64::MAX)));
    assert!(k.io.stdin_enabled && k.io.stdout_capture);
}

#[test]
fn libos_gate_and_strings() {
    let mut g = SyscallGate::new();
    assert_eq!(g.target(), None);
    set_syscall_gate(&mut g, 0x4000);
    assert_eq!(g.target(), Some(0x4000));
    let s = exec_str_env("/bin/echo", "hi", "A=1\n").unwrap();
    assert_eq!(s.path, b"/bin/echo\0".to_vec());
    assert_eq!(s.args, b"hi\0".to_vec());
    assert_eq!(s.env, b"A=1\n\0".to_vec());
    let s = exec_str("/bin/ls", "").unwrap();
    assert_eq!(s.env, vec![0u8]);
    assert!(exec_str_env(&"p".repeat(64), "", "").is_none());
    assert!(exec_str_env(&"p".repeat(63), &"a".repeat(191), &"e".repeat(511)).is_some());
    assert!(exec_str_env("/p", &"a".repeat(192), "").is_none());
    assert!(exec_str_env("/p", "", &"e".repeat(512)).is_none());
    assert_eq!(path_cstr("/bin"), Some(b"/bin\0".to_vec()));
    assert_eq!(path_cstr(&"q".repeat(128)), None);
    assert!(path_cstr(&"q".repeat(127)).is_some());
    assert_eq!(list_dir_result(SYSCALL_ERROR, 10), 0);
    assert_eq!(list_dir_result(4, 10), 4);
    assert_eq!(list_dir_result(40, 10), 10);
    assert_eq!(read_file_result(SYSCALL_ERROR, 10), None);
    assert_eq!(read_file_result(3, 10), Some(3));
    assert_eq!(read_file_result(30, 10), Some(10));
}
