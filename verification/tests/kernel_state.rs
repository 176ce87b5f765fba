use smultron::allocator::{heap_pages, HEAP_START};
use smultron::elf::{AppSlot, PT_LOAD};
use smultron::keyboard::{key_byte, output_ready, try_read_byte, KeyInput, KeyboardDecoder};
use smultron::paging::pages_in_range;
use smultron::process::{
    begin_io, capture_stdout, complete_exec, end_io, exec, exec_region_pages, exec_with_io,
    probe_executable, slot_base, slot_for_index, slot_for_path, take_stdin_byte, ExecStart,
    IoState, Kernel, ProcessManager, StdinByte, PROCESS_SLOT_BASE, PROCESS_SLOT_SIZE,
};
use smultron::user::ring3_smoke_test;
use smultron::vfs::{
    init, list_dir, list_in_bounds, read_file, read_file_bytes, write_file, Vfs, HELLO_TXT,
};

fn put(b: &mut Vec<u8>, off: usize, v: &[u8]) {
    b[off..off + v.len()].copy_from_slice(v);
}

/// An executable for `slot` with one segment at the slot's start.
fn program_for(slot: AppSlot) -> Vec<u8> {
    let mut b = vec![0u8; 64 + 56 + 16];
    put(&mut b, 0, &[0x7f, b'E', b'L', b'F', 2, 1]);
    put(&mut b, 24, &(slot.base + 8).to_le_bytes());
    put(&mut b, 32, &64u64.to_le_bytes());
    put(&mut b, 54, &56u16.to_le_bytes());
    put(&mut b, 56, &1u16.to_le_bytes());
    put(&mut b, 64, &PT_LOAD.to_le_bytes());
    put(&mut b, 64 + 8, &120u64.to_le_bytes());
    put(&mut b, 64 + 16, &slot.base.to_le_bytes());
    put(&mut b, 64 + 32, &16u64.to_le_bytes());
    put(&mut b, 64 + 40, &32u64.to_le_bytes());
    b
}

fn kernel() -> Kernel {
    Kernel::new(Vfs::standard(
        program_for(slot_for_index(0)),
        program_for(slot_for_index(1)),
        vec![1, 2, 3],
        program_for(slot_for_index(3)),
        program_for(slot_for_index(3)),
        program_for(slot_for_index(5)),
        program_for(slot_for_index(6)),
    ))
}

#[test]
fn slots_are_laid_out_in_order() {
    assert_eq!(slot_base(0), PROCESS_SLOT_BASE);
    assert_eq!(slot_base(2), PROCESS_SLOT_BASE + 2 * PROCESS_SLOT_SIZE);
    let s = slot_for_index(1);
    assert_eq!(s.base, 0x5555_0010_0000);
    assert_eq!(s.end, 0x5555_0020_0000);
    assert_eq!(slot_for_path("/bin/init"), Some(0));
    assert_eq!(slot_for_path("/bin/tee"), Some(5));
    assert_eq!(slot_for_path("/bin/sed"), Some(6));
    assert_eq!(slot_for_path("/bin/nope"), None);
    assert_eq!(slot_for_path("/hello.txt"), None);
}

#[test]
fn spawn_then_finish_frees_the_slot() {
    let mut pm = ProcessManager::new();
    assert_eq!(pm.spawn_slot(2), Some((1, 2)));
    assert_eq!(pm.spawn_slot(2), None);
    assert_eq!(pm.spawn_slot(7), None);
    assert_eq!(pm.spawn_slot(3), Some((2, 3)));
    pm.finish(1, 0);
    assert!(!pm.slots_in_use[2]);
    assert!(pm.slots_in_use[3]);
    assert_eq!(pm.spawn_slot(2), Some((3, 2)));
    pm.finish(99, 0);
    assert!(pm.slots_in_use[2]);
}

#[test]
fn redirected_stdin_is_read_in_order_then_ends() {
    let mut io = IoState::new();
    assert_eq!(take_stdin_byte(&mut io), StdinByte::Unavailable);
    begin_io(&mut io, Some(b"ab"), false);
    assert_eq!(take_stdin_byte(&mut io), StdinByte::Byte(b'a'));
    assert_eq!(take_stdin_byte(&mut io), StdinByte::Byte(b'b'));
    assert_eq!(take_stdin_byte(&mut io), StdinByte::Eof);
    assert_eq!(take_stdin_byte(&mut io), StdinByte::Eof);
    begin_io(&mut io, None, false);
    assert_eq!(take_stdin_byte(&mut io), StdinByte::Unavailable);
}

#[test]
fn stdin_is_limited_to_its_buffer() {
    let mut io = IoState::new();
    let data = vec![7u8; 5000];
    begin_io(&mut io, Some(&data), false);
    assert_eq!(io.stdin.len(), 4096);
}

#[test]
fn output_is_captured_up_to_its_buffer() {
    let mut io = IoState::new();
    assert!(!capture_stdout(&mut io, b"x"));
    begin_io(&mut io, None, true);
    assert!(capture_stdout(&mut io, b"hello "));
    assert!(capture_stdout(&mut io, b"world"));
    assert_eq!(io.stdout, b"hello world".to_vec());
    let big = vec![b'z'; 5000];
    assert!(capture_stdout(&mut io, &big));
    assert_eq!(io.stdout.len(), 4096);
    assert!(!capture_stdout(&mut io, b"more"));
    let out = end_io(&mut io, Some(5));
    assert_eq!(out, b"hello".to_vec());
    assert!(!io.active);
    assert!(!capture_stdout(&mut io, b"x"));
}

#[test]
fn probing_checks_file_slot_and_elf() {
    let k = kernel();
    assert!(probe_executable(&k, "/bin/init"));
    assert!(probe_executable(&k, "/bin/echo"));
    assert!(!probe_executable(&k, "/bin/env"));
    assert!(!probe_executable(&k, "/bin/cat"));
    assert!(probe_executable(&k, "/bin/tee"));
    assert!(probe_executable(&k, "/bin/sed"));
    assert!(!probe_executable(&k, "/bin/nope"));
    assert!(!probe_executable(&k, "/hello.txt"));
}

#[test]
fn exec_runs_and_completes() {
    let mut k = kernel();
    match exec(&mut k, "/bin/echo", "hi", "") {
        ExecStart::Run { pid, slot, image } => {
            assert_eq!(pid, 1);
            assert_eq!(slot, slot_for_index(1));
            assert_eq!(image.segments.len(), 1);
            let l = image.launch.unwrap();
            assert_eq!(l.entry, slot.base + 8);
            assert_eq!(l.args, b"hi\0".to_vec());
            assert!(k.procs.slots_in_use[1]);
            assert_eq!(complete_exec(&mut k, pid, Some(3)), 3);
            assert!(!k.procs.slots_in_use[1]);
        }
        ExecStart::Done(_) => panic!("echo should start"),
    }
    assert!(k.io.active);
}

#[test]
fn exec_failures_report_the_error_status() {
    let mut k = kernel();
    assert!(matches!(exec(&mut k, "/bin/nope", "", ""), ExecStart::Done(u64::MAX)));
    assert!(matches!(exec(&mut k, "/hello.txt", "", ""), ExecStart::Done(u64::MAX)));
    assert!(matches!(exec(&mut k, "/bin/env", "", ""), ExecStart::Done(u64::MAX)));
    assert!(!k.procs.slots_in_use[2]);
    assert!(matches!(exec(&mut k, "/bin/cat", "", ""), ExecStart::Done(u64::MAX)));
    assert!(!k.procs.slots_in_use[4]);
    assert_eq!(complete_exec(&mut k, 42, None), u64::MAX);
}

#[test]
fn a_running_slot_cannot_be_entered_twice() {
    let mut k = kernel();
    let first = exec(&mut k, "/bin/init", "", "");
    assert!(matches!(first, ExecStart::Run { pid: 1, .. }));
    assert!(matches!(exec(&mut k, "/bin/init", "", ""), ExecStart::Done(u64::MAX)));
}

#[test]
fn exec_with_io_sets_up_redirection() {
    let mut k = kernel();
    let start = exec_with_io(&mut k, "/bin/echo", "", "", Some(b"in"), true);
    assert!(matches!(start, ExecStart::Run { .. }));
    assert!(k.io.stdin_enabled && k.io.stdout_capture);
    assert_eq!(take_stdin_byte(&mut k.io), StdinByte::Byte(b'i'));
    assert!(capture_stdout(&mut k.io, b"out"));
    if let ExecStart::Run { pid, .. } = start {
        complete_exec(&mut k, pid, Some(0));
    }
    assert_eq!(end_io(&mut k.io, Some(4096)), b"out".to_vec());
}

#[test]
fn region_and_heap_pages() {
    let p = exec_region_pages(1);
    assert_eq!(p.len(), 256);
    assert_eq!(p[0], 0x5555_0010_0000);
    assert_eq!(p[255], 0x5555_0010_0000 + 255 * 4096);
    let h = heap_pages();
    assert_eq!(h.len(), 25);
    assert_eq!(h[0], HEAP_START);
    assert_eq!(h[24], HEAP_START + 24 * 4096);
}

#[test]
fn pages_cover_partial_ends() {
    assert_eq!(pages_in_range(0x1001, 0x2000), vec![0x1000, 0x2000, 0x3000]);
    assert_eq!(pages_in_range(0x1000, 1), vec![0x1000]);
    assert_eq!(pages_in_range(0x8000_0000_0123, 1), vec![0xFFFF_8000_0000_0000]);
}

#[test]
fn boot_messages() {
    assert_eq!(init(), "[ok] vfs initialized");
    assert_eq!(ring3_smoke_test(), (true, "[ok] ring3 smoke test placeholder executed"));
}

#[test]
fn files_are_found_by_path() {
    let k = kernel();
    assert_eq!(read_file(&k.vfs, "/hello.txt"), Some(HELLO_TXT.as_bytes()));
    assert_eq!(read_file(&k.vfs, "/bin/env"), Some(&[1u8, 2, 3][..]));
    assert_eq!(read_file(&k.vfs, "/nope"), None);
    assert_eq!(read_file_bytes(&k.vfs, "/hello.txt", 5), Some(b"hello".to_vec()));
    assert_eq!(read_file_bytes(&k.vfs, "/bin/env", 100), Some(vec![1, 2, 3]));
    assert_eq!(read_file_bytes(&k.vfs, "/x", 100), None);
}

#[test]
fn listing_directories() {
    let k = kernel();
    assert_eq!(list_dir(&k.vfs, "/", 64), b"hello.txt\0bin\0".to_vec());
    assert_eq!(list_dir(&k.vfs, "/bin", 64), b"init\0echo\0env\0ls\0cat\0tee\0sed\0".to_vec());
    assert_eq!(list_dir(&k.vfs, "/bin/", 64), Vec::<u8>::new());
    assert_eq!(list_dir(&k.vfs, "/bin", 12), b"init\0echo\0".to_vec());
    assert_eq!(list_dir(&k.vfs, "/none", 64), Vec::<u8>::new());
    assert!(list_in_bounds(&k.vfs, "/bin"));
}

#[test]
fn a_read_gives_back_the_last_write() {
    let mut k = kernel();
    assert!(write_file(&mut k.vfs, "/note.txt", b"hello"));
    assert_eq!(read_file(&k.vfs, "/note.txt"), Some(&b"hello"[..]));
    assert!(write_file(&mut k.vfs, "/note.txt", b"again"));
    assert_eq!(read_file(&k.vfs, "/note.txt"), Some(&b"again"[..]));
    assert!(write_file(&mut k.vfs, "/hello.txt", b"new"));
    assert_eq!(read_file(&k.vfs, "/hello.txt"), Some(&b"new"[..]));
    assert_eq!(read_file(&k.vfs, "/bin/env"), Some(&[1u8, 2, 3][..]));
    assert_eq!(k.vfs.files.len(), 9);
    assert_eq!(list_dir(&k.vfs, "/", 64), b"hello.txt\0bin\0note.txt\0".to_vec());
}

#[test]
fn bad_paths_are_not_written() {
    let mut k = kernel();
    assert!(!write_file(&mut k.vfs, "", b"x"));
    assert!(!write_file(&mut k.vfs, "/caf\u{e9}", b"x"));
    assert_eq!(k.vfs.files.len(), 8);
}

#[test]
fn keyboard_bytes() {
    assert_eq!(key_byte(KeyInput::Unicode('a')), Some(b'a'));
    assert_eq!(key_byte(KeyInput::Unicode('\u{e9}')), None);
    assert_eq!(key_byte(KeyInput::Return), Some(b'\n'));
    assert_eq!(key_byte(KeyInput::NumpadEnter), Some(b'\n'));
    assert_eq!(key_byte(KeyInput::Backspace), Some(8));
    assert_eq!(key_byte(KeyInput::OtherKey), None);
    assert!(output_ready(0x01));
    assert!(output_ready(0x1d));
    assert!(!output_ready(0x1c));
}

#[test]
fn keyboard_decodes_set1_scancodes() {
    let mut dec = KeyboardDecoder::new();
    assert_eq!(dec.decode(0x1e), Some(b'a'));
    assert_eq!(dec.decode(0x9e), None);
    assert_eq!(dec.decode(0x1c), Some(b'\n'));
    assert_eq!(dec.decode(0x0e), Some(8));
    assert_eq!(try_read_byte(&mut dec, 0x00, 0x30), None);
    assert_eq!(try_read_byte(&mut dec, 0x01, 0x30), Some(b'b'));
    assert_eq!(dec.decode(0x2a), None);
    assert_eq!(dec.decode(0x1e), Some(b'A'));
}

#[test]
fn every_listed_program_can_run() {
    let mut k = Kernel::new(Vfs::standard(
        program_for(slot_for_index(0)),
        program_for(slot_for_index(1)),
        program_for(slot_for_index(2)),
        program_for(slot_for_index(3)),
        program_for(slot_for_index(4)),
        program_for(slot_for_index(5)),
        program_for(slot_for_index(6)),
    ));
    for p in ["/bin/init", "/bin/echo", "/bin/env", "/bin/ls", "/bin/cat", "/bin/tee", "/bin/sed"] {
        assert!(probe_executable(&k, p));
    }
    match exec(&mut k, "/bin/sed", "s/a/b/", "") {
        ExecStart::Run { slot, .. } => assert_eq!(slot, slot_for_index(6)),
        ExecStart::Done(_) => panic!("sed should start"),
    }
    assert!(k.procs.slots_in_use[6]);
}

#[test]
fn a_plain_run_decides_as_a_redirected_run() {
    for p in ["/bin/echo", "/bin/env", "/bin/nope", "/hello.txt"] {
        let mut a = kernel();
        let mut b = kernel();
        let ra = exec(&mut a, p, "x", "");
        let rb = exec_with_io(&mut b, p, "x", "", None, false);
        match (ra, rb) {
            (ExecStart::Done(x), ExecStart::Done(y)) => assert_eq!(x, y),
            (ExecStart::Run { pid: p1, slot: s1, .. }, ExecStart::Run { pid: p2, slot: s2, .. }) => {
                assert_eq!((p1, s1), (p2, s2));
            }
            _ => panic!("the two runs differ"),
        }
        assert_eq!(a.procs.slots_in_use, b.procs.slots_in_use);
    }
}
