//! The shell's working directory and path resolution.
use vstd::prelude::*;
use vstd::string::StringSliceAdditionalSpecFns;
use vstd::utf8::valid_utf8;
use crate::bytes::{bytes_eq, copy_range, append_bytes, is_valid_utf8};
use crate::text::{trim, spec_trim};
use super::envvars::{EnvTable, get_env, set_env, spec_get_env, spec_set_env};

verus! {

/// Longest working directory or resolved path.
pub const MAX_PATH_BUF: usize = 128;
/// Longest program path (`/bin/` and the command name).
pub const MAX_BIN_PATH: usize = 63;

pub open spec fn cwd_key() -> Seq<u8> {
    seq![0x43u8, 0x57u8, 0x44u8]
}

fn cwd_key_vec() -> (v: Vec<u8>)
    ensures
        v@ == cwd_key(),
{
    let mut v: Vec<u8> = Vec::new();
    v.push(0x43);
    v.push(0x57);
    v.push(0x44);
    assert(v@ =~= cwd_key());
    v
}

pub open spec fn min(a: int, b: int) -> int {
    if a <= b {
        a
    } else {
        b
    }
}

/// The working directory that `cd args` selects (before it is stored), or
/// `None` when that text is not valid UTF-8.
pub open spec fn spec_new_cwd(env: Seq<(Seq<u8>, Seq<u8>)>, args: Seq<u8>) -> Option<Seq<u8>> {
    let t = spec_trim(args);
    let path = if t.len() == 0 {
        seq![0x2fu8]
    } else {
        t
    };
    let joined = if path[0] == 0x2f {
        path.subrange(0, min(path.len() as int, 127))
    } else {
        let base = match spec_get_env(env, cwd_key()) {
            Some(cwd) => {
                let c = cwd.subrange(0, min(cwd.len() as int, 127));
                if c.len() > 0 && c[c.len() - 1] != 0x2f {
                    c.push(0x2fu8)
                } else {
                    c
                }
            },
            None => seq![0x2fu8],
        };
        base + path.subrange(0, min(path.len() as int, MAX_PATH_BUF - base.len() - 1))
    };
    let cut = if joined.len() > 1 && joined[joined.len() - 1] == 0x2f {
        joined.subrange(0, joined.len() - 1)
    } else {
        joined
    };
    if valid_utf8(cut) {
        Some(cut)
    } else {
        None
    }
}

/// `cd`: sets `CWD` from `args` (absolute, or relative to the current one);
/// gives the error message printed, if any.
pub fn set_cwd(env: &mut EnvTable, args: &[u8]) -> (msg: Vec<u8>)
    requires
        old(env).wf(),
    ensures
        final(env).wf(),
        match spec_new_cwd(old(env)@, args@) {
            Some(c) => final(env)@ == spec_set_env(old(env)@, cwd_key(), c).0 && msg@
                == spec_set_env(old(env)@, cwd_key(), c).1,
            None => final(env)@ == old(env)@ && msg@.len() == 0,
        },
{
    let t = trim(args);
    let mut path: Vec<u8> = t;
    if path.len() == 0 {
        path.push(0x2f);
        assert(path@ =~= seq![0x2fu8]);
    }
    let ghost sp = path@;
    let key = cwd_key_vec();
    let mut joined: Vec<u8>;
    if path[0] == 0x2f {
        let n = if path.len() < 127 {
            path.len()
        } else {
            127
        };
        joined = copy_range(path.as_slice(), 0, n);
    } else {
        match get_env(env, key.as_slice()) {
            Some(cwd) => {
                let n = if cwd.len() < 127 {
                    cwd.len()
                } else {
                    127
                };
                joined = copy_range(cwd, 0, n);
                if n > 0 && joined[n - 1] != 0x2f {
                    joined.push(0x2f);
                }
            },
            None => {
                joined = Vec::new();
                joined.push(0x2f);
                assert(joined@ =~= seq![0x2fu8]);
            },
        }
        let ghost base = joined@;
        let room = MAX_PATH_BUF - joined.len() - 1;
        let n2 = if path.len() < room {
            path.len()
        } else {
            room
        };
        let tail = copy_range(path.as_slice(), 0, n2);
        append_bytes(&mut joined, tail.as_slice());
        assert(joined@ == base + sp.subrange(0, min(sp.len() as int, MAX_PATH_BUF - base.len() - 1)));
    }
    let jl = joined.len();
    let cut = if jl > 1 && joined[jl - 1] == 0x2f {
        copy_range(joined.as_slice(), 0, jl - 1)
    } else {
        assert(joined@.subrange(0, jl as int) =~= joined@);
        copy_range(joined.as_slice(), 0, jl)
    };
    if is_valid_utf8(cut.as_slice()) {
        assert(spec_new_cwd(env@, args@) == Some(cut@));
        set_env(env, key.as_slice(), cut.as_slice())
    } else {
        Vec::new()
    }
}

/// Bytes below 0x80 are each a UTF-8 character of their own.
pub proof fn lemma_ascii_is_utf8(s: Seq<u8>)
    requires
        forall|j: int| 0 <= j < s.len() ==> #[trigger] s[j] < 0x80,
    ensures
        valid_utf8(s),
    decreases s.len(),
{
    if s.len() > 0 {
        let b = s[0];
        assert((b & 0x7f) as u32 <= 0x7f) by (bit_vector);
        let rest = s.subrange(1, s.len() as int);
        assert forall|j: int| 0 <= j < rest.len() implies #[trigger] rest[j] < 0x80 by {
            assert(rest[j] == s[j + 1]);
        }
        lemma_ascii_is_utf8(rest);
    }
}

/// `cd` with a relative name joins it onto the working directory `c` with
/// exactly one `/` between them: a `/` is added only when `c` does not
/// already end in one (so from `/`, `cd bin` gives `/bin`). This holds for
/// ASCII text short enough that nothing is cut, and a name without
/// surrounding blanks, not starting or ending with `/`.
pub proof fn lemma_cd_relative(env: Seq<(Seq<u8>, Seq<u8>)>, c: Seq<u8>, n: Seq<u8>)
    requires
        spec_get_env(env, cwd_key()) == Some(c),
        c.len() >= 1,
        n.len() >= 1,
        c.len() + 1 + n.len() <= 127,
        n[0] != 0x2f,
        n[n.len() - 1] != 0x2f,
        spec_trim(n) == n,
        forall|j: int| 0 <= j < c.len() ==> #[trigger] c[j] < 0x80,
        forall|j: int| 0 <= j < n.len() ==> #[trigger] n[j] < 0x80,
    ensures
        spec_new_cwd(env, n) == Some(
            if c[c.len() - 1] == 0x2f {
                c + n
            } else {
                c + seq![0x2fu8] + n
            },
        ),
{
    let want = if c[c.len() - 1] == 0x2f {
        c + n
    } else {
        c + seq![0x2fu8] + n
    };
    let cc = c.subrange(0, min(c.len() as int, 127));
    assert(cc =~= c);
    let base = if cc.len() > 0 && cc[cc.len() - 1] != 0x2f {
        cc.push(0x2fu8)
    } else {
        cc
    };
    assert(base.len() <= c.len() + 1);
    assert(min(n.len() as int, MAX_PATH_BUF - base.len() - 1) == n.len());
    assert(n.subrange(0, n.len() as int) =~= n);
    let joined = base + n.subrange(0, min(n.len() as int, MAX_PATH_BUF - base.len() - 1));
    assert(joined =~= want);
    assert(want[want.len() - 1] == n[n.len() - 1]);
    assert forall|j: int| 0 <= j < want.len() implies #[trigger] want[j] < 0x80 by {
        if j < c.len() {
            assert(want[j] == c[j]);
        } else if c[c.len() - 1] == 0x2f {
            assert(want[j] == n[j - c.len()]);
        } else if j > c.len() {
            assert(want[j] == n[j - c.len() - 1]);
        }
    }
    lemma_ascii_is_utf8(want);
}

/// A redirection path: absolute paths as they are (up to `MAX_PATH_BUF`
/// bytes), relative ones under the working directory; `None` when too long
/// or not valid UTF-8.
pub open spec fn spec_resolve_path(env: Seq<(Seq<u8>, Seq<u8>)>, path: Seq<u8>) -> Option<Seq<u8>> {
    let full = if path.len() > 0 && path[0] == 0x2f {
        if path.len() > MAX_PATH_BUF {
            None
        } else {
            Some(path)
        }
    } else {
        let cwd = match spec_get_env(env, cwd_key()) {
            Some(v) => if valid_utf8(v) {
                v
            } else {
                seq![0x2fu8]
            },
            None => seq![0x2fu8],
        };
        let base = if cwd == seq![0x2fu8] {
            Some(seq![0x2fu8])
        } else if cwd.len() + 1 > MAX_PATH_BUF {
            None
        } else if cwd[cwd.len() - 1] != 0x2f {
            Some(cwd.push(0x2fu8))
        } else {
            Some(cwd)
        };
        match base {
            None => None,
            Some(b) => if b.len() + path.len() > MAX_PATH_BUF {
                None
            } else {
                Some(b + path)
            },
        }
    };
    match full {
        Some(f) => if valid_utf8(f) {
            Some(f)
        } else {
            None
        },
        None => None,
    }
}

/// Resolving a relative path reads the last byte of the working directory,
/// so an empty working directory stops the shell.
pub open spec fn spec_resolve_faults(env: Seq<(Seq<u8>, Seq<u8>)>, path: Seq<u8>) -> bool {
    !(path.len() > 0 && path[0] == 0x2f) && spec_get_env(env, cwd_key()) == Some(Seq::<u8>::empty())
}

/// Resolves a redirection path (see `spec_resolve_path`).
pub fn resolve_path(env: &EnvTable, path: &[u8]) -> (r: Option<Vec<u8>>)
    requires
        env.wf(),
        !spec_resolve_faults(env@, path@),
    ensures
        match spec_resolve_path(env@, path@) {
            Some(p) => r matches Some(v) && v@ == p,
            None => r is None,
        },
{
    let full: Vec<u8>;
    if path.len() > 0 && path[0] == 0x2f {
        if path.len() > MAX_PATH_BUF {
            return None;
        }
        assert(path@.subrange(0, path@.len() as int) =~= path@);
        full = copy_range(path, 0, path.len());
    } else {
        let key = cwd_key_vec();
        let mut slash: Vec<u8> = Vec::new();
        slash.push(0x2f);
        assert(slash@ =~= seq![0x2fu8]);
        let cwd: Vec<u8> = match get_env(env, key.as_slice()) {
            Some(v) => if is_valid_utf8(v) {
                proof {
                    if v@.len() == 0 {
                        assert(v@ =~= Seq::<u8>::empty());
                    }
                }
                assert(v@.subrange(0, v@.len() as int) =~= v@);
                copy_range(v, 0, v.len())
            } else {
                copy_range(slash.as_slice(), 0, 1)
            },
            None => copy_range(slash.as_slice(), 0, 1),
        };
        assert(slash@.subrange(0, 1) =~= seq![0x2fu8]);
        assert(cwd@ == match spec_get_env(env@, cwd_key()) {
            Some(v) => if valid_utf8(v) {
                v
            } else {
                seq![0x2fu8]
            },
            None => seq![0x2fu8],
        });
        let mut out: Vec<u8>;
        if bytes_eq(cwd.as_slice(), slash.as_slice()) {
            out = slash;
        } else {
            if cwd.len() + 1 > MAX_PATH_BUF {
                return None;
            }
            let cl = cwd.len();
            let last = cwd[cl - 1];
            out = cwd;
            if last != 0x2f {
                out.push(0x2f);
            }
        }
        let ghost base = out@;
        if path.len() > MAX_PATH_BUF - out.len() {
            return None;
        }
        append_bytes(&mut out, path);
        assert(out@ == base + path@);
        full = out;
    }
    if is_valid_utf8(full.as_slice()) {
        Some(full)
    } else {
        None
    }
}

/// The path of the program a command names: as it is when absolute, else
/// under `/bin/` (at most `MAX_BIN_PATH` bytes, and not empty).
pub open spec fn spec_resolve_bin_path(cmd: Seq<u8>) -> Option<Seq<u8>> {
    if cmd.len() > 0 && cmd[0] == 0x2f {
        Some(cmd)
    } else {
        let full = "/bin/".spec_bytes() + cmd;
        if full.len() == 0 || full.len() > MAX_BIN_PATH {
            None
        } else if valid_utf8(full) {
            Some(full)
        } else {
            None
        }
    }
}

/// The path of the program a command names.
pub fn resolve_bin_path(cmd: &[u8]) -> (r: Option<Vec<u8>>)
    ensures
        match spec_resolve_bin_path(cmd@) {
            Some(p) => r matches Some(v) && v@ == p,
            None => r is None,
        },
{
    if cmd.len() > 0 && cmd[0] == 0x2f {
        return Some(copy_range(cmd, 0, cmd.len()));
    }
    let prefix = "/bin/".as_bytes();
    if prefix.len() > MAX_BIN_PATH || cmd.len() > MAX_BIN_PATH - prefix.len() {
        return None;
    }
    let mut full = copy_range(prefix, 0, prefix.len());
    assert(full@ =~= prefix@);
    append_bytes(&mut full, cmd);
    assert(full@ == "/bin/".spec_bytes() + cmd@);
    if full.len() == 0 {
        return None;
    }
    if is_valid_utf8(full.as_slice()) {
        Some(full)
    } else {
        None
    }
}

/// The shell's own commands.
pub open spec fn spec_is_builtin(cmd: Seq<u8>) -> bool {
    ||| cmd == "help".spec_bytes()
    ||| cmd == "clear".spec_bytes()
    ||| cmd == "exit".spec_bytes()
    ||| cmd == "cd".spec_bytes()
    ||| cmd == "env".spec_bytes()
    ||| cmd == "export".spec_bytes()
}

/// Whether `cmd` is one of the shell's own commands.
pub fn is_builtin(cmd: &[u8]) -> (r: bool)
    ensures
        r == spec_is_builtin(cmd@),
{
    bytes_eq(cmd, "help".as_bytes()) || bytes_eq(cmd, "clear".as_bytes()) || bytes_eq(
        cmd,
        "exit".as_bytes(),
    ) || bytes_eq(cmd, "cd".as_bytes()) || bytes_eq(cmd, "env".as_bytes()) || bytes_eq(
        cmd,
        "export".as_bytes(),
    )
}

} // verus!
