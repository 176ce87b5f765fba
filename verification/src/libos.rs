//! The userspace side of system calls: where calls go, and the argument
//! strings and answers that programs exchange with the kernel.
use vstd::prelude::*;
use vstd::string::StringSliceAdditionalSpecFns;
use crate::bytes::copy_range;
use crate::syscall::SYSCALL_ERROR;

verus! {

/// Longest path an exec may pass.
pub const MAX_EXEC_PATH: usize = 63;
/// Longest argument text an exec may pass.
pub const MAX_EXEC_ARGS: usize = 191;
/// Longest environment text an exec may pass.
pub const MAX_EXEC_ENV: usize = 511;
/// Paths of file calls must be shorter than this.
pub const PATH_BUF: usize = 128;

/// The entry point that system calls go through; 0 while none is set.
pub struct SyscallGate {
    pub addr: usize,
}

impl SyscallGate {
    /// No entry point yet.
    pub fn new() -> (g: Self)
        ensures
            g.addr == 0,
    {
        SyscallGate { addr: 0 }
    }

    /// Where calls go, if an entry point is set; calls made without one
    /// fail.
    pub fn target(&self) -> (r: Option<usize>)
        ensures
            self.addr == 0 ==> r is None,
            self.addr != 0 ==> r == Some(self.addr),
    {
        if self.addr == 0 {
            None
        } else {
            Some(self.addr)
        }
    }
}

/// Makes `gate` the entry point of later system calls.
pub fn set_syscall_gate(g: &mut SyscallGate, gate: usize)
    ensures
        final(g).addr == gate,
{
    g.addr = gate;
}

/// A fresh copy of `s` followed by a NUL byte.
fn nul_terminated(s: &[u8]) -> (v: Vec<u8>)
    ensures
        v@ == s@.push(0u8),
{
    let mut v = copy_range(s, 0, s.len());
    v.push(0u8);
    assert(s@.subrange(0, s@.len() as int) =~= s@);
    v
}

/// The three NUL-terminated strings an exec passes.
pub struct ExecStrings {
    pub path: Vec<u8>,
    pub args: Vec<u8>,
    pub env: Vec<u8>,
}

/// The strings to pass for running `path` with `args` and environment
/// `env`, or `None` (the call fails at once) when one of them is too long.
pub fn exec_str_env(path: &str, args: &str, env: &str) -> (r: Option<ExecStrings>)
    ensures
        r is None <==> (path.spec_bytes().len() > MAX_EXEC_PATH || args.spec_bytes().len()
            > MAX_EXEC_ARGS || env.spec_bytes().len() > MAX_EXEC_ENV),
        r matches Some(x) ==> x.path@ == path.spec_bytes().push(0u8) && x.args@
            == args.spec_bytes().push(0u8) && x.env@ == env.spec_bytes().push(0u8),
{
    let p = path.as_bytes();
    let a = args.as_bytes();
    let e = env.as_bytes();
    if p.len() > MAX_EXEC_PATH || a.len() > MAX_EXEC_ARGS || e.len() > MAX_EXEC_ENV {
        return None;
    }
    Some(ExecStrings { path: nul_terminated(p), args: nul_terminated(a), env: nul_terminated(e) })
}

/// `exec_str_env` with an empty environment.
pub fn exec_str(path: &str, args: &str) -> (r: Option<ExecStrings>)
    ensures
        r is None <==> (path.spec_bytes().len() > MAX_EXEC_PATH || args.spec_bytes().len()
            > MAX_EXEC_ARGS),
        r matches Some(x) ==> x.path@ == path.spec_bytes().push(0u8) && x.args@
            == args.spec_bytes().push(0u8) && x.env@ == seq![0u8],
{
    proof {
        reveal_strlit("");
        vstd::string::is_ascii_spec_bytes("");
    }
    let r = exec_str_env(path, args, "");
    proof {
        if r is Some {
            assert(Seq::<u8>::empty().push(0u8) =~= seq![0u8]);
        }
    }
    r
}

/// The NUL-terminated path that a file call passes, or `None` (the call
/// is not made) when the path does not fit.
pub fn path_cstr(path: &str) -> (r: Option<Vec<u8>>)
    ensures
        r is None <==> path.spec_bytes().len() >= PATH_BUF,
        r matches Some(v) ==> v@ == path.spec_bytes().push(0u8),
{
    let p = path.as_bytes();
    if p.len() >= PATH_BUF {
        return None;
    }
    Some(nul_terminated(p))
}

/// The length a directory listing reports to the program: nothing on a
/// failed call, else the answer, limited to the buffer.
pub fn list_dir_result(ret: u64, buf_len: usize) -> (r: usize)
    ensures
        ret == SYSCALL_ERROR ==> r == 0,
        ret != SYSCALL_ERROR ==> r == (if ret < buf_len { ret as int } else { buf_len as int }),
{
    if ret == SYSCALL_ERROR {
        return 0;
    }
    if ret < buf_len as u64 {
        ret as usize
    } else {
        buf_len
    }
}

/// The length a file read reports to the program: `None` on a failed call,
/// else the answer, limited to the buffer.
pub fn read_file_result(ret: u64, buf_len: usize) -> (r: Option<usize>)
    ensures
        ret == SYSCALL_ERROR ==> r is None,
        ret != SYSCALL_ERROR ==> r == Some((if ret < buf_len { ret as int } else { buf_len as int }) as usize),
{
    if ret == SYSCALL_ERROR {
        return None;
    }
    if ret < buf_len as u64 {
        Some(ret as usize)
    } else {
        Some(buf_len)
    }
}

} // verus!
