//! System calls: their numbers, the checks made on their arguments, the
//! reading of NUL-terminated strings out of a program's memory, and what
//! each call does to the kernel's state and answers.
use vstd::prelude::*;
use vstd::string::StringSliceAdditionalSpecFns;
use vstd::utf8::valid_utf8;
use crate::bytes::str_or_empty;
use crate::process::{
    ExecStart, IoState, Kernel, MAX_IO_STDIN, MAX_IO_STDOUT, StdinByte, exec, exec_with_io,
    take_stdin_byte,
};
use crate::vfs::{
    list_dir, read_file_bytes, spec_list_in_bounds, spec_list_names, spec_join0, spec_lookup,
    spec_writable_path, write_file,
};

verus! {

/// The system calls, by the number a program passes.
#[derive(Clone, Copy, Debug, PartialEq, Eq, Structural)]
pub enum SyscallNumber {
    Read,
    Write,
    Open,
    Fork,
    Execve,
    Exit,
    ReadDir,
    ReadFile,
    ExecIo,
    WriteFile,
}

/// The answer that reports a failed call.
pub const SYSCALL_ERROR: u64 = 0xFFFF_FFFF_FFFF_FFFF;
/// Room for an executable's path, its NUL included.
pub const EXEC_PATH_CAP: usize = 64;
/// Room for an executable's argument text, its NUL included.
pub const EXEC_ARGS_CAP: usize = 192;
/// Room for an executable's environment text, its NUL included.
pub const EXEC_ENV_CAP: usize = 512;
/// Room for a file or directory path, its NUL included.
pub const FILE_PATH_CAP: usize = 128;

impl SyscallNumber {
    pub open spec fn spec_number(self) -> u64 {
        match self {
            SyscallNumber::Read => 0,
            SyscallNumber::Write => 1,
            SyscallNumber::Open => 2,
            SyscallNumber::Fork => 57,
            SyscallNumber::Execve => 59,
            SyscallNumber::Exit => 60,
            SyscallNumber::ReadDir => 78,
            SyscallNumber::ReadFile => 79,
            SyscallNumber::ExecIo => 80,
            SyscallNumber::WriteFile => 81,
        }
    }

    /// The number a program passes for this call.
    pub fn number(&self) -> (r: u64)
        ensures
            r == self.spec_number(),
    {
        match self {
            SyscallNumber::Read => 0,
            SyscallNumber::Write => 1,
            SyscallNumber::Open => 2,
            SyscallNumber::Fork => 57,
            SyscallNumber::Execve => 59,
            SyscallNumber::Exit => 60,
            SyscallNumber::ReadDir => 78,
            SyscallNumber::ReadFile => 79,
            SyscallNumber::ExecIo => 80,
            SyscallNumber::WriteFile => 81,
        }
    }
}

/// The log line of system-call set-up.
pub fn init() -> (r: &'static str)
    ensures
        r == "[ok] syscall MSR init scaffolded",
{
    "[ok] syscall MSR init scaffolded"
}

/// What a call asks for once its register arguments are checked. Addresses
/// are the program's; lengths are as passed.
#[derive(Clone, Copy, Debug, PartialEq, Eq, Structural)]
pub enum SyscallAction {
    /// Answer at once.
    Reply(u64),
    /// Read up to `len` bytes of standard input into `buf`.
    ReadStdin { buf: u64, len: u64 },
    /// Write the `len` bytes at `buf` to standard output.
    WriteOut { buf: u64, len: u64 },
    /// Run the program whose path is at `path`; `args` and `env` may be 0.
    Exec { path: u64, args: u64, env: u64 },
    /// List directory `path` into the `len` bytes at `buf`.
    ListDir { path: u64, buf: u64, len: u64 },
    /// Read file `path` into the `len` bytes at `buf`.
    ReadFile { path: u64, buf: u64, len: u64 },
    /// Run a program with the I/O request found at `req`.
    ExecIo { req: u64 },
    /// Write the `len` bytes at `buf` as file `path`.
    WriteFile { path: u64, buf: u64, len: u64 },
}

/// The action for call `nr` with arguments `a0`, `a1`, `a2`.
pub open spec fn spec_decode(nr: u64, a0: u64, a1: u64, a2: u64) -> SyscallAction {
    if nr == SyscallNumber::Read.spec_number() {
        if a0 != 0 || a1 == 0 {
            SyscallAction::Reply(SYSCALL_ERROR)
        } else if a2 == 0 {
            SyscallAction::Reply(0)
        } else {
            SyscallAction::ReadStdin { buf: a1, len: a2 }
        }
    } else if nr == SyscallNumber::Write.spec_number() {
        if (a0 != 1 && a0 != 2) || a1 == 0 {
            SyscallAction::Reply(SYSCALL_ERROR)
        } else if a2 == 0 {
            SyscallAction::Reply(0)
        } else {
            SyscallAction::WriteOut { buf: a1, len: a2 }
        }
    } else if nr == SyscallNumber::Execve.spec_number() {
        if a0 == 0 {
            SyscallAction::Reply(SYSCALL_ERROR)
        } else {
            SyscallAction::Exec { path: a0, args: a1, env: a2 }
        }
    } else if nr == SyscallNumber::Exit.spec_number() {
        SyscallAction::Reply(0)
    } else if nr == SyscallNumber::ReadDir.spec_number() {
        if a0 == 0 || a1 == 0 || a2 == 0 {
            SyscallAction::Reply(SYSCALL_ERROR)
        } else {
            SyscallAction::ListDir { path: a0, buf: a1, len: a2 }
        }
    } else if nr == SyscallNumber::ReadFile.spec_number() {
        if a0 == 0 || a1 == 0 || a2 == 0 {
            SyscallAction::Reply(SYSCALL_ERROR)
        } else {
            SyscallAction::ReadFile { path: a0, buf: a1, len: a2 }
        }
    } else if nr == SyscallNumber::ExecIo.spec_number() {
        if a0 == 0 {
            SyscallAction::Reply(SYSCALL_ERROR)
        } else {
            SyscallAction::ExecIo { req: a0 }
        }
    } else if nr == SyscallNumber::WriteFile.spec_number() {
        if a0 == 0 || a1 == 0 {
            SyscallAction::Reply(SYSCALL_ERROR)
        } else {
            SyscallAction::WriteFile { path: a0, buf: a1, len: a2 }
        }
    } else {
        SyscallAction::Reply(SYSCALL_ERROR)
    }
}

/// Checks the register arguments of call `nr` (standard input is descriptor
/// 0; output goes to descriptor 1 or 2; required addresses are not 0) and
/// says what is left to do. Unknown calls, and calls without a handler
/// (`Open`, `Fork`), fail.
pub fn decode_syscall(nr: u64, a0: u64, a1: u64, a2: u64) -> (r: SyscallAction)
    ensures
        r == spec_decode(nr, a0, a1, a2),
{
    if nr == SyscallNumber::Read.number() {
        if a0 != 0 || a1 == 0 {
            SyscallAction::Reply(SYSCALL_ERROR)
        } else if a2 == 0 {
            SyscallAction::Reply(0)
        } else {
            SyscallAction::ReadStdin { buf: a1, len: a2 }
        }
    } else if nr == SyscallNumber::Write.number() {
        if (a0 != 1 && a0 != 2) || a1 == 0 {
            SyscallAction::Reply(SYSCALL_ERROR)
        } else if a2 == 0 {
            SyscallAction::Reply(0)
        } else {
            SyscallAction::WriteOut { buf: a1, len: a2 }
        }
    } else if nr == SyscallNumber::Execve.number() {
        if a0 == 0 {
            SyscallAction::Reply(SYSCALL_ERROR)
        } else {
            SyscallAction::Exec { path: a0, args: a1, env: a2 }
        }
    } else if nr == SyscallNumber::Exit.number() {
        SyscallAction::Reply(0)
    } else if nr == SyscallNumber::ReadDir.number() {
        if a0 == 0 || a1 == 0 || a2 == 0 {
            SyscallAction::Reply(SYSCALL_ERROR)
        } else {
            SyscallAction::ListDir { path: a0, buf: a1, len: a2 }
        }
    } else if nr == SyscallNumber::ReadFile.number() {
        if a0 == 0 || a1 == 0 || a2 == 0 {
            SyscallAction::Reply(SYSCALL_ERROR)
        } else {
            SyscallAction::ReadFile { path: a0, buf: a1, len: a2 }
        }
    } else if nr == SyscallNumber::ExecIo.number() {
        if a0 == 0 {
            SyscallAction::Reply(SYSCALL_ERROR)
        } else {
            SyscallAction::ExecIo { req: a0 }
        }
    } else if nr == SyscallNumber::WriteFile.number() {
        if a0 == 0 || a1 == 0 {
            SyscallAction::Reply(SYSCALL_ERROR)
        } else {
            SyscallAction::WriteFile { path: a0, buf: a1, len: a2 }
        }
    } else {
        SyscallAction::Reply(SYSCALL_ERROR)
    }
}

/// A call is only carried out with its required addresses present: every
/// buffer and path it will touch is at a non-zero address, and reads and
/// writes of standard streams have something to move.
pub proof fn lemma_decoded_addresses_present(nr: u64, a0: u64, a1: u64, a2: u64)
    ensures
        spec_decode(nr, a0, a1, a2) matches SyscallAction::ReadStdin { buf, len } ==> buf != 0
            && len != 0 && a0 == 0,
        spec_decode(nr, a0, a1, a2) matches SyscallAction::WriteOut { buf, len } ==> buf != 0
            && len != 0 && (a0 == 1 || a0 == 2),
        spec_decode(nr, a0, a1, a2) matches SyscallAction::Exec { path, args, env } ==> path != 0,
        spec_decode(nr, a0, a1, a2) matches SyscallAction::ListDir { path, buf, len } ==> path != 0
            && buf != 0 && len != 0,
        spec_decode(nr, a0, a1, a2) matches SyscallAction::ReadFile { path, buf, len } ==> path
            != 0 && buf != 0 && len != 0,
        spec_decode(nr, a0, a1, a2) matches SyscallAction::ExecIo { req } ==> req != 0,
        spec_decode(nr, a0, a1, a2) matches SyscallAction::WriteFile { path, buf, len } ==> path
            != 0 && buf != 0,
{
}

/// Each call takes its operands from the registers its number assigns them:
/// `read(0, buf, len)` and `write(fd, buf, len)` move `len` bytes at `buf`;
/// `execve(path, args, env)` (number 59) runs `path` with the argument text
/// at `args` and the environment text at `env`; `readdir`, `readfile` and
/// `writefile` take the path first, then the buffer and its length; the
/// I/O-redirected run takes its request block first.
pub proof fn lemma_decoded_registers(nr: u64, a0: u64, a1: u64, a2: u64)
    ensures
        nr == 0 && a0 == 0 && a1 != 0 && a2 != 0 ==> spec_decode(nr, a0, a1, a2)
            == (SyscallAction::ReadStdin { buf: a1, len: a2 }),
        nr == 1 && (a0 == 1 || a0 == 2) && a1 != 0 && a2 != 0 ==> spec_decode(nr, a0, a1, a2)
            == (SyscallAction::WriteOut { buf: a1, len: a2 }),
        nr == 59 && a0 != 0 ==> spec_decode(nr, a0, a1, a2) == (SyscallAction::Exec {
            path: a0,
            args: a1,
            env: a2,
        }),
        nr == 60 ==> spec_decode(nr, a0, a1, a2) == SyscallAction::Reply(0),
        nr == 78 && a0 != 0 && a1 != 0 && a2 != 0 ==> spec_decode(nr, a0, a1, a2)
            == (SyscallAction::ListDir { path: a0, buf: a1, len: a2 }),
        nr == 79 && a0 != 0 && a1 != 0 && a2 != 0 ==> spec_decode(nr, a0, a1, a2)
            == (SyscallAction::ReadFile { path: a0, buf: a1, len: a2 }),
        nr == 80 && a0 != 0 ==> spec_decode(nr, a0, a1, a2) == (SyscallAction::ExecIo { req: a0 }),
        nr == 81 && a0 != 0 && a1 != 0 ==> spec_decode(nr, a0, a1, a2)
            == (SyscallAction::WriteFile { path: a0, buf: a1, len: a2 }),
{
}

// ---------------------------------------------------------------------------
// NUL-terminated strings in a program's memory.

/// How far the reading of a NUL-terminated string has come.
#[derive(Clone, Copy, Debug, PartialEq, Eq, Structural)]
pub enum CStrState {
    Reading,
    Complete,
    TooLong,
}

/// Reads a NUL-terminated string, one byte at a time, into room for `cap`
/// bytes (the NUL included).
pub struct CStrReader {
    pub cap: usize,
    pub bytes: Vec<u8>,
    pub state: CStrState,
}

/// The index of the first NUL in `mem` at or after `i`.
pub open spec fn spec_first_nul(mem: Seq<u8>, i: nat) -> Option<nat>
    decreases mem.len() - i,
{
    if i >= mem.len() {
        None
    } else if mem[i as int] == 0 {
        Some(i)
    } else {
        spec_first_nul(mem, i + 1)
    }
}

/// The string at the start of `mem`, when it fits in `cap` bytes with its
/// NUL.
pub open spec fn spec_cstr(mem: Seq<u8>, cap: int) -> Option<Seq<u8>> {
    match spec_first_nul(mem, 0) {
        Some(n) => if n < cap {
            Some(mem.subrange(0, n as int))
        } else {
            None
        },
        None => None,
    }
}

impl CStrReader {
    pub open spec fn wf(&self) -> bool {
        &&& self.state == CStrState::Reading ==> self.bytes@.len() < self.cap
        &&& self.bytes@.len() <= self.cap
        &&& forall|i: int| 0 <= i < self.bytes@.len() ==> #[trigger] self.bytes@[i] != 0
    }

    /// A reader with nothing read; with no room at all, it has already failed.
    pub fn new(cap: usize) -> (r: Self)
        ensures
            r.wf(),
            r.cap == cap,
            r.bytes@.len() == 0,
            r.state == (if cap == 0 {
                CStrState::TooLong
            } else {
                CStrState::Reading
            }),
    {
        let state = if cap == 0 {
            CStrState::TooLong
        } else {
            CStrState::Reading
        };
        CStrReader { cap, bytes: Vec::new(), state }
    }

    /// Takes the next byte: a NUL completes the string; any other byte is
    /// kept, and the string is too long once the room is used up.
    pub fn feed(&mut self, b: u8)
        requires
            old(self).wf(),
            old(self).state == CStrState::Reading,
        ensures
            final(self).wf(),
            final(self).cap == old(self).cap,
            b == 0 ==> final(self).state == CStrState::Complete && final(self).bytes@
                == old(self).bytes@,
            b != 0 ==> final(self).bytes@ == old(self).bytes@.push(b) && final(self).state == (
            if final(self).bytes@.len() == old(self).cap {
                CStrState::TooLong
            } else {
                CStrState::Reading
            }),
    {
        if b == 0 {
            self.state = CStrState::Complete;
        } else {
            self.bytes.push(b);
            if self.bytes.len() == self.cap {
                self.state = CStrState::TooLong;
            }
        }
    }

    /// The string, if its NUL was found in time.
    pub fn finish(self) -> (r: Option<Vec<u8>>)
        ensures
            self.state == CStrState::Complete ==> (r matches Some(v) && v@ == self.bytes@),
            self.state != CStrState::Complete ==> r is None,
    {
        match self.state {
            CStrState::Complete => Some(self.bytes),
            _ => None,
        }
    }
}

proof fn lemma_first_nul_skip(mem: Seq<u8>, i: nat)
    requires
        forall|j: int| 0 <= j < i ==> mem[j] != 0,
        i <= mem.len(),
    ensures
        spec_first_nul(mem, 0) == spec_first_nul(mem, i),
    decreases i,
{
    if i > 0 {
        lemma_first_nul_skip(mem, (i - 1) as nat);
    }
}

proof fn lemma_first_nul_from(mem: Seq<u8>, i: nat)
    ensures
        spec_first_nul(mem, i) matches Some(n) ==> n >= i,
    decreases mem.len() - i,
{
    if i < mem.len() {
        lemma_first_nul_from(mem, i + 1);
    }
}

/// Reads the NUL-terminated string at the start of `mem` with a reader of
/// room `cap`: the reader gives what `spec_cstr` says, whenever `mem` holds
/// a NUL or at least `cap` bytes (so that the reader never runs past it).
pub fn copy_cstr(mem: &[u8], cap: usize) -> (r: Option<Vec<u8>>)
    requires
        spec_first_nul(mem@, 0) is Some || mem@.len() >= cap,
    ensures
        r matches Some(v) ==> spec_cstr(mem@, cap as int) == Some(v@),
        r is None ==> spec_cstr(mem@, cap as int) is None,
{
    let mut rd = CStrReader::new(cap);
    let mut i: usize = 0;
    while i < mem.len() && rd.state == CStrState::Reading
        invariant
            rd.wf(),
            rd.cap == cap,
            i <= mem@.len(),
            rd.bytes@ == mem@.subrange(0, i as int),
            spec_first_nul(mem@, 0) is Some || mem@.len() >= cap,
            forall|j: int| 0 <= j < i ==> mem@[j] != 0,
            rd.state == CStrState::Complete ==> i < mem@.len() && mem@[i as int] == 0 && i < cap,
            rd.state == CStrState::TooLong ==> i == cap,
        decreases mem@.len() - i, if rd.state == CStrState::Reading { 1int } else { 0int },
    {
        let b = mem[i];
        rd.feed(b);
        if b != 0 {
            i = i + 1;
            assert(rd.bytes@ =~= mem@.subrange(0, i as int));
        }
    }
    proof {
        lemma_first_nul_skip(mem@, i as nat);
        if rd.state == CStrState::Reading {
            assert(i == mem@.len());
            assert(spec_first_nul(mem@, i as nat) is None);
        } else if rd.state == CStrState::Complete {
            assert(spec_first_nul(mem@, i as nat) == Some(i as nat));
            assert(spec_cstr(mem@, cap as int) == Some(rd.bytes@));
        } else {
            lemma_first_nul_from(mem@, i as nat);
            assert(spec_cstr(mem@, cap as int) is None);
        }
    }
    rd.finish()
}

/// The text a syscall hands on for a string it read: the string when it is
/// valid UTF-8, and the empty text otherwise.
pub open spec fn spec_text(b: Seq<u8>) -> Seq<u8> {
    if valid_utf8(b) {
        b
    } else {
        Seq::empty()
    }
}

// ---------------------------------------------------------------------------
// The calls' work on the kernel's state.

/// What a read of standard input took from redirected input, and whether
/// the rest must come from the console (input is not redirected).
pub struct StdinRead {
    pub bytes: Vec<u8>,
    pub console: bool,
}

/// Reads up to `len` bytes of redirected standard input. When input is not
/// redirected, nothing is taken and the reading (of at least one byte)
/// falls to the console.
pub fn sys_read_stdin(io: &mut IoState, len: usize) -> (r: StdinRead)
    requires
        old(io).wf(),
    ensures
        final(io).wf(),
        final(io).active == old(io).active,
        final(io).stdin_enabled == old(io).stdin_enabled,
        final(io).stdin@ == old(io).stdin@,
        final(io).stdout_capture == old(io).stdout_capture,
        final(io).stdout@ == old(io).stdout@,
        !(old(io).active && old(io).stdin_enabled) ==> r.console == (len > 0) && r.bytes@.len()
            == 0 && final(io).stdin_pos == old(io).stdin_pos,
        old(io).active && old(io).stdin_enabled ==> ({
            let pos = old(io).stdin_pos as int;
            let avail = old(io).stdin@.len() - pos;
            let n = if len < avail { len as int } else { avail };
            &&& !r.console
            &&& r.bytes@ == old(io).stdin@.subrange(pos, pos + n)
            &&& final(io).stdin_pos == pos + n
        }),
{
    let mut bytes: Vec<u8> = Vec::new();
    let mut console = false;
    let mut stop = false;
    let ghost pos = io.stdin_pos as int;
    while bytes.len() < len && !stop
        invariant
            io.wf(),
            io.active == old(io).active,
            io.stdin_enabled == old(io).stdin_enabled,
            io.stdin@ == old(io).stdin@,
            io.stdout_capture == old(io).stdout_capture,
            io.stdout@ == old(io).stdout@,
            pos == old(io).stdin_pos,
            bytes@.len() <= len,
            stop ==> len > 0,
            !(io.active && io.stdin_enabled) ==> bytes@.len() == 0 && io.stdin_pos == pos
                && console == stop,
            io.active && io.stdin_enabled ==> !console && io.stdin_pos == pos + bytes@.len()
                && bytes@ == io.stdin@.subrange(pos, io.stdin_pos as int) && (stop
                ==> io.stdin_pos == io.stdin@.len()),
        decreases len - bytes@.len(), if stop { 0int } else { 1int },
    {
        match take_stdin_byte(io) {
            StdinByte::Byte(b) => {
                bytes.push(b);
                assert(bytes@ =~= io.stdin@.subrange(pos, io.stdin_pos as int));
            },
            StdinByte::Eof => {
                stop = true;
            },
            StdinByte::Unavailable => {
                console = true;
                stop = true;
            },
        }
    }
    StdinRead { bytes, console }
}

/// Adds a console byte to what a read of `len` bytes has got; the read is
/// done when it is full or the byte ends a line.
pub fn push_console_byte(got: &mut Vec<u8>, len: usize, b: u8) -> (done: bool)
    requires
        old(got)@.len() < len,
    ensures
        final(got)@ == old(got)@.push(b),
        done == (final(got)@.len() >= len || b == 0x0a || b == 0x0d),
{
    got.push(b);
    got.len() >= len || b == 0x0a || b == 0x0d
}

/// Starts the program whose path, argument text and environment text were
/// read from the caller (each one empty when not valid UTF-8).
pub fn sys_exec(k: &mut Kernel, path: &[u8], args: &[u8], env: &[u8]) -> (r: ExecStart)
    requires
        old(k).wf(),
    ensures
        final(k).wf(),
        final(k).vfs == old(k).vfs,
        final(k).io.active,
        !final(k).io.stdin_enabled,
        !final(k).io.stdout_capture,
        crate::process::exec_outcome(
            old(k).procs@,
            old(k).vfs.files@,
            spec_text(path@),
            spec_text(args@),
            spec_text(env@),
            final(k).procs@,
            r,
        ),
{
    let p = str_or_empty(path);
    let a = str_or_empty(args);
    let e = str_or_empty(env);
    assert(p.spec_bytes() =~= spec_text(path@));
    assert(a.spec_bytes() =~= spec_text(args@));
    assert(e.spec_bytes() =~= spec_text(env@));
    exec(k, p, a, e)
}

/// The request of an I/O-redirecting exec, as the caller lays it out:
/// addresses in its memory and lengths.
#[derive(Clone, Copy, Debug, PartialEq, Eq, Structural)]
pub struct ExecIoRequest {
    pub path_ptr: u64,
    pub args_ptr: u64,
    pub env_ptr: u64,
    pub stdin_ptr: u64,
    pub stdin_len: u64,
    pub stdout_ptr: u64,
    pub stdout_cap: u64,
    pub status_ptr: u64,
}

/// What to read and where output goes for an I/O-redirecting exec.
#[derive(Clone, Copy, Debug, PartialEq, Eq, Structural)]
pub struct ExecIoPlan {
    /// Whether an argument text is to be read (else it is empty).
    pub read_args: bool,
    /// Whether an environment text is to be read (else it is empty).
    pub read_env: bool,
    /// How many bytes of standard input to take, when input is redirected.
    pub stdin_len: Option<usize>,
    /// How many bytes of output to hand back, when output is captured.
    pub stdout_cap: Option<usize>,
}

pub open spec fn spec_limit(ptr: u64, len: u64, max: int) -> Option<usize> {
    if ptr == 0 || len == 0 {
        None
    } else if len < max {
        Some(len as usize)
    } else {
        Some(max as usize)
    }
}

/// Checks an I/O-redirecting exec request: it needs a path and a place for
/// the status. Input and output are redirected when given (address and
/// length not 0), each limited to 4096 bytes.
pub fn plan_exec_io(req: &ExecIoRequest) -> (r: Option<ExecIoPlan>)
    ensures
        (req.path_ptr == 0 || req.status_ptr == 0) ==> r is None,
        (req.path_ptr != 0 && req.status_ptr != 0) ==> r == Some(
            ExecIoPlan {
                read_args: req.args_ptr != 0,
                read_env: req.env_ptr != 0,
                stdin_len: spec_limit(req.stdin_ptr, req.stdin_len, MAX_IO_STDIN as int),
                stdout_cap: spec_limit(req.stdout_ptr, req.stdout_cap, MAX_IO_STDOUT as int),
            },
        ),
{
    if req.path_ptr == 0 || req.status_ptr == 0 {
        return None;
    }
    let stdin_len = if req.stdin_ptr == 0 || req.stdin_len == 0 {
        None
    } else if req.stdin_len < 4096 {
        Some(req.stdin_len as usize)
    } else {
        Some(MAX_IO_STDIN)
    };
    let stdout_cap = if req.stdout_ptr == 0 || req.stdout_cap == 0 {
        None
    } else if req.stdout_cap < 4096 {
        Some(req.stdout_cap as usize)
    } else {
        Some(MAX_IO_STDOUT)
    };
    Some(
        ExecIoPlan {
            read_args: req.args_ptr != 0,
            read_env: req.env_ptr != 0,
            stdin_len,
            stdout_cap,
        },
    )
}

/// Starts an I/O-redirecting exec with the strings read from the caller,
/// the standard input read from it (`None` when not redirected), and output
/// captured when `capture`.
pub fn sys_exec_io(
    k: &mut Kernel,
    path: &[u8],
    args: &[u8],
    env: &[u8],
    stdin: Option<&[u8]>,
    capture: bool,
) -> (r: ExecStart)
    requires
        old(k).wf(),
    ensures
        final(k).wf(),
        final(k).vfs == old(k).vfs,
        final(k).io.active,
        final(k).io.stdin_enabled == stdin is Some,
        final(k).io.stdin_pos == 0,
        final(k).io.stdout_capture == capture,
        final(k).io.stdout@.len() == 0,
        match stdin {
            Some(d) => final(k).io.stdin@ == d@.subrange(
                0,
                crate::process::min(d@.len() as int, MAX_IO_STDIN as int),
            ),
            None => final(k).io.stdin@.len() == 0,
        },
        crate::process::exec_outcome(
            old(k).procs@,
            old(k).vfs.files@,
            spec_text(path@),
            spec_text(args@),
            spec_text(env@),
            final(k).procs@,
            r,
        ),
{
    let p = str_or_empty(path);
    let a = str_or_empty(args);
    let e = str_or_empty(env);
    assert(p.spec_bytes() =~= spec_text(path@));
    assert(a.spec_bytes() =~= spec_text(args@));
    assert(e.spec_bytes() =~= spec_text(env@));
    exec_with_io(k, p, a, e, stdin, capture)
}

/// An answer and the bytes to copy into the caller's buffer.
pub struct SyscallReply {
    pub ret: u64,
    pub out: Vec<u8>,
}

/// Lists directory `path` (read from the caller) into a buffer of `len`
/// bytes; the answer is the number of bytes written.
pub fn sys_read_dir(k: &Kernel, path: &[u8], len: usize) -> (r: SyscallReply)
    requires
        k.wf(),
        spec_list_in_bounds(k.vfs.files@, spec_text(path@)),
    ensures
        r.out@ == spec_join0(
            spec_list_names(k.vfs.files@, spec_text(path@), len as int, k.vfs.files@.len()),
        ),
        r.ret == r.out@.len(),
        r.out@.len() <= len,
{
    let p = str_or_empty(path);
    assert(p.spec_bytes() =~= spec_text(path@));
    let out = list_dir(&k.vfs, p, len);
    SyscallReply { ret: out.len() as u64, out }
}

/// Whether listing directory `path` (read from the caller) stays in bounds.
pub fn read_dir_in_bounds(k: &Kernel, path: &[u8]) -> (r: bool)
    ensures
        r == spec_list_in_bounds(k.vfs.files@, spec_text(path@)),
{
    let p = str_or_empty(path);
    assert(p.spec_bytes() =~= spec_text(path@));
    crate::vfs::list_in_bounds(&k.vfs, p)
}

/// What reading file `p` into a buffer of `len` bytes hands back: its
/// first bytes that fit, or `None` when there is no such file.
pub open spec fn spec_read_reply(files: Seq<crate::vfs::FileEntry>, p: Seq<u8>, len: int) -> Option<Seq<u8>> {
    match spec_lookup(files, p) {
        Some(d) => Some(d.subrange(0, if d.len() < len { d.len() as int } else { len })),
        None => None,
    }
}

/// Reads file `path` (read from the caller) into a buffer of `len` bytes;
/// the answer is the number of bytes written, or the error when there is
/// no such file.
pub fn sys_read_file(k: &Kernel, path: &[u8], len: usize) -> (r: SyscallReply)
    ensures
        match spec_read_reply(k.vfs.files@, spec_text(path@), len as int) {
            Some(o) => r.out@ == o && r.ret == o.len(),
            None => r.ret == SYSCALL_ERROR && r.out@.len() == 0,
        },
{
    let p = str_or_empty(path);
    assert(p.spec_bytes() =~= spec_text(path@));
    match read_file_bytes(&k.vfs, p, len) {
        Some(out) => SyscallReply { ret: out.len() as u64, out },
        None => SyscallReply { ret: SYSCALL_ERROR, out: Vec::new() },
    }
}

/// Writes `data` as file `path` (both read from the caller); the answer is
/// the length written, or the error when the path cannot name a file.
pub fn sys_write_file(k: &mut Kernel, path: &[u8], data: &[u8]) -> (r: u64)
    requires
        old(k).wf(),
    ensures
        final(k).wf(),
        final(k).procs@ == old(k).procs@,
        final(k).io == old(k).io,
        spec_writable_path(spec_text(path@)) ==> r == data@.len() && forall|q: Seq<u8>|
            #[trigger] spec_lookup(final(k).vfs.files@, q) == if q == spec_text(path@) {
                Some(data@)
            } else {
                spec_lookup(old(k).vfs.files@, q)
            },
        !spec_writable_path(spec_text(path@)) ==> r == SYSCALL_ERROR && final(k).vfs.files@
            == old(k).vfs.files@,
{
    let p = str_or_empty(path);
    assert(p.spec_bytes() =~= spec_text(path@));
    if write_file(&mut k.vfs, p, data) {
        data.len() as u64
    } else {
        SYSCALL_ERROR
    }
}

/// A file written through the write call reads back through the read call:
/// the read answers the length that fits in its buffer (not the error) and
/// hands back the written bytes up to it. Here `before` and `after` are the
/// file tables around a successful `sys_write_file(path, data)`, as its
/// contract relates them.
pub proof fn lemma_syscall_read_after_write(
    before: Seq<crate::vfs::FileEntry>,
    after: Seq<crate::vfs::FileEntry>,
    path: Seq<u8>,
    data: Seq<u8>,
    cap: int,
)
    requires
        spec_writable_path(spec_text(path)),
        forall|q: Seq<u8>|
            #[trigger] spec_lookup(after, q) == if q == spec_text(path) {
                Some(data)
            } else {
                spec_lookup(before, q)
            },
    ensures
        spec_read_reply(after, spec_text(path), cap) == Some(
            data.subrange(0, if data.len() < cap { data.len() as int } else { cap }),
        ),
{
    assert(spec_lookup(after, spec_text(path)) == Some(data));
}

} // verus!
