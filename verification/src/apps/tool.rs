//! The steps of a tool that reads input and files: each step prints its
//! output, then asks for one outside action whose result is the next event.
use vstd::prelude::*;
use vstd::string::StringSliceAdditionalSpecFns;
use crate::bytes::{copy_range, append_bytes};
use crate::writes::{one_write, single, writes_view};

verus! {

/// An outside action a tool asks for.
pub enum ToolRequest {
    /// Read a chunk of standard input.
    ReadStdin,
    ReadFile(Vec<u8>),
    WriteFile(Vec<u8>, Vec<u8>),
    /// List a directory into at most the given number of bytes.
    ListDir(Vec<u8>, usize),
    /// The tool has finished.
    Done,
}

/// The result of the action last asked for.
pub enum ToolEvent {
    /// A chunk of standard input; empty at its end, `None` on a read error.
    StdinRead(Option<Vec<u8>>),
    FileRead(Option<Vec<u8>>),
    FileWritten(bool),
    /// The NUL-separated names of a directory listing.
    DirListed(Vec<u8>),
}

/// Print `output` (one write call per chunk), then perform `request`.
pub struct ToolStep {
    pub output: Vec<Vec<u8>>,
    pub request: ToolRequest,
}

/// A step that prints `out` in one write and asks for `req` (an action
/// without data).
pub open spec fn spec_tool_step(s: ToolStep, out: Seq<u8>, req: ToolRequest) -> bool {
    writes_view(s.output@) == one_write(out) && s.request == req
}

/// A step that makes the writes `ws` and asks for `req`.
pub open spec fn spec_tool_writes(s: ToolStep, ws: Seq<Seq<u8>>, req: ToolRequest) -> bool {
    writes_view(s.output@) == ws && s.request == req
}

/// A step that prints `output` in one write, then asks for `request`.
pub fn tool_step(output: Vec<u8>, request: ToolRequest) -> (s: ToolStep)
    ensures
        writes_view(s.output@) == one_write(output@),
        s.output@.len() == one_write(output@).len(),
        s.request == request,
{
    ToolStep { output: single(output), request }
}

/// A fresh vector holding the bytes of `s`.
pub fn str_vec(s: &str) -> (v: Vec<u8>)
    ensures
        v@ == s.spec_bytes(),
{
    let b = s.as_bytes();
    assert(b@.subrange(0, b@.len() as int) =~= b@);
    copy_range(b, 0, b.len())
}

/// `a`, `b` and `c` one after the other.
pub fn cat3(a: &str, b: &[u8], c: &str) -> (v: Vec<u8>)
    ensures
        v@ == a.spec_bytes() + b@ + c.spec_bytes(),
{
    let mut v = str_vec(a);
    append_bytes(&mut v, b);
    append_bytes(&mut v, c.as_bytes());
    v
}

/// The index of the first line end in `s` at or after `i` (or its length).
pub open spec fn line_end(s: Seq<u8>, i: int) -> int
    decreases s.len() - i,
{
    if i < 0 || i >= s.len() {
        if i < 0 { 0 } else { i }
    } else if s[i] == 0x0a {
        i
    } else {
        line_end(s, i + 1)
    }
}

/// Whether `line` reads `key=...`.
pub open spec fn line_sets(line: Seq<u8>, key: Seq<u8>) -> bool {
    line.len() > key.len() && line.subrange(0, key.len() as int) == key && line[key.len() as int] == 0x3d
}

/// The value given to `key` by the first of the `KEY=VALUE` lines of
/// `env[i..]` that sets it.
pub open spec fn spec_env_value(env: Seq<u8>, key: Seq<u8>, i: int) -> Option<Seq<u8>>
    decreases env.len() + 1 - i,
{
    if i < 0 || i >= env.len() {
        None
    } else {
        let e = line_end(env, i);
        let line = env.subrange(i, e);
        if line_sets(line, key) {
            Some(line.subrange(key.len() + 1int, line.len() as int))
        } else {
            proof {
                lemma_line_end_bounds(env, i);
            }
            spec_env_value(env, key, e + 1)
        }
    }
}

pub proof fn lemma_line_end_bounds(s: Seq<u8>, i: int)
    requires
        0 <= i <= s.len(),
    ensures
        i <= line_end(s, i) <= s.len(),
    decreases s.len() - i,
{
    if i < s.len() && s[i] != 0x0a {
        lemma_line_end_bounds(s, i + 1);
    }
}

/// The value that the environment text `env` (as a program receives it)
/// gives to `key`.
pub fn env_value(env: &[u8], key: &[u8]) -> (r: Option<Vec<u8>>)
    ensures
        match spec_env_value(env@, key@, 0) {
            Some(v) => r matches Some(x) && x@ == v,
            None => r is None,
        },
{
    let n = env.len();
    let mut i: usize = 0;
    while i < n
        invariant
            i <= n,
            n == env@.len(),
            spec_env_value(env@, key@, 0) == spec_env_value(env@, key@, i as int),
        decreases n - i,
    {
        proof {
            lemma_line_end_bounds(env@, i as int);
        }
        let mut e = i;
        while e < n && env[e] != 0x0a
            invariant
                i <= e <= n,
                n == env@.len(),
                line_end(env@, i as int) == line_end(env@, e as int),
            decreases n - e,
        {
            e = e + 1;
        }
        let line = copy_range(env, i, e);
        let k = key.len();
        let mut sets = line.len() > k && line[k] == 0x3d;
        if sets {
            let mut j: usize = 0;
            while j < k
                invariant
                    j <= k,
                    k == key@.len(),
                    k < line@.len(),
                    sets ==> forall|t: int| 0 <= t < j ==> line@[t] == key@[t],
                    !sets ==> line@.subrange(0, k as int) != key@,
                decreases k - j,
            {
                if sets && line[j] != key[j] {
                    assert(line@.subrange(0, k as int)[j as int] != key@[j as int]);
                    sets = false;
                }
                j = j + 1;
            }
            if sets {
                assert(line@.subrange(0, k as int) =~= key@);
            }
        }
        assert(sets == line_sets(line@, key@));
        assert(line_end(env@, e as int) == e);
        if sets {
            return Some(copy_range(line.as_slice(), k + 1, line.len()));
        }
        i = if e < n { e + 1 } else { n };
    }
    None
}

/// The working directory a program is started in: the `CWD` of its
/// environment text, or `/` when that sets none.
pub fn cwd_of(env: &[u8]) -> (r: Vec<u8>)
    ensures
        r@ == match spec_env_value(env@, seq![0x43u8, 0x57u8, 0x44u8], 0) {
            Some(v) => v,
            None => seq![0x2fu8],
        },
{
    let mut key: Vec<u8> = Vec::new();
    key.push(0x43);
    key.push(0x57);
    key.push(0x44);
    assert(key@ =~= seq![0x43u8, 0x57u8, 0x44u8]);
    match env_value(env, key.as_slice()) {
        Some(v) => v,
        None => {
            let mut root: Vec<u8> = Vec::new();
            root.push(0x2f);
            assert(root@ =~= seq![0x2fu8]);
            root
        },
    }
}

} // verus!
