//! `cat`: prints a file, or standard input when given no path.
use vstd::prelude::*;
use vstd::string::StringSliceAdditionalSpecFns;
use vstd::utf8::valid_utf8;
use crate::bytes::{bytes_eq, copy_range, append_bytes, is_valid_utf8};
use crate::text::{trim, spec_trim};
use super::tool::{ToolEvent, ToolRequest, ToolStep, tool_step, str_vec, spec_tool_step, spec_tool_writes};
use crate::writes::{push_write, single, three, writes3, writes_view};

verus! {

/// Longest resolved path.
pub const MAX_TOOL_PATH: usize = 128;
/// The chunk of standard input read at a time.
pub const CAT_CHUNK: usize = 256;

/// A tool's path argument: as it is when absolute, else under `cwd`
/// (at most `MAX_TOOL_PATH` bytes, and valid UTF-8).
pub open spec fn spec_resolve_path(path: Seq<u8>, cwd: Seq<u8>) -> Option<Seq<u8>> {
    if path.len() > 0 && path[0] == 0x2f {
        Some(path)
    } else {
        let base = if cwd == seq![0x2fu8] {
            Some(seq![0x2fu8])
        } else if cwd.len() >= MAX_TOOL_PATH {
            None
        } else if cwd.len() == 0 || cwd[cwd.len() - 1] != 0x2f {
            Some(cwd.push(0x2fu8))
        } else {
            Some(cwd)
        };
        match base {
            None => None,
            Some(b) => if b.len() + path.len() > MAX_TOOL_PATH {
                None
            } else if valid_utf8(b + path) {
                Some(b + path)
            } else {
                None
            },
        }
    }
}

/// Resolves a tool's path argument against `cwd`.
pub fn resolve_path(path: &[u8], cwd: &[u8]) -> (r: Option<Vec<u8>>)
    ensures
        match spec_resolve_path(path@, cwd@) {
            Some(p) => r matches Some(v) && v@ == p,
            None => r is None,
        },
{
    if path.len() > 0 && path[0] == 0x2f {
        assert(path@.subrange(0, path@.len() as int) =~= path@);
        return Some(copy_range(path, 0, path.len()));
    }
    let mut slash: Vec<u8> = Vec::new();
    slash.push(0x2f);
    assert(slash@ =~= seq![0x2fu8]);
    let mut out: Vec<u8>;
    if bytes_eq(cwd, slash.as_slice()) {
        out = slash;
    } else {
        if cwd.len() >= MAX_TOOL_PATH {
            return None;
        }
        assert(cwd@.subrange(0, cwd@.len() as int) =~= cwd@);
        out = copy_range(cwd, 0, cwd.len());
        if cwd.len() == 0 || cwd[cwd.len() - 1] != 0x2f {
            out.push(0x2f);
        }
    }
    if path.len() > MAX_TOOL_PATH - out.len() {
        return None;
    }
    append_bytes(&mut out, path);
    if is_valid_utf8(out.as_slice()) {
        Some(out)
    } else {
        None
    }
}

/// A running `cat`: reading standard input, or printing the file at `path`.
pub struct Cat {
    pub from_stdin: bool,
    pub path: Vec<u8>,
}

/// The writes `cat` makes for file contents `d`: them, then a line end
/// when they do not end with one.
pub open spec fn spec_cat_file(d: Seq<u8>) -> Seq<Seq<u8>> {
    if d.len() == 0 {
        Seq::empty()
    } else if d[d.len() - 1] != 0x0a {
        seq![d, seq![0x0au8]]
    } else {
        seq![d]
    }
}

/// Starts `cat args` in directory `cwd`.
pub fn run(args: &str, cwd: &str) -> (r: (Cat, ToolStep))
    ensures
        ({
            let p = spec_trim(args.spec_bytes());
            if p.len() == 0 {
                r.0.from_stdin && spec_tool_step(r.1, Seq::empty(), ToolRequest::ReadStdin)
            } else {
                !r.0.from_stdin && match spec_resolve_path(p, cwd.spec_bytes()) {
                    None => spec_tool_step(r.1, "cat: path too long\n".spec_bytes(), ToolRequest::Done),
                    Some(full) => r.1.output@.len() == 0 && (r.1.request matches ToolRequest::ReadFile(
                        f,
                    ) && f@ == full) && r.0.path@ == full,
                }
            }
        }),
{
    let p = trim(args.as_bytes());
    if p.len() == 0 {
        return (Cat { from_stdin: true, path: Vec::new() }, tool_step(Vec::new(), ToolRequest::ReadStdin));
    }
    match resolve_path(p.as_slice(), cwd.as_bytes()) {
        None => (
            Cat { from_stdin: false, path: Vec::new() },
            tool_step(str_vec("cat: path too long\n"), ToolRequest::Done),
        ),
        Some(full) => {
            let req = ToolRequest::ReadFile(copy_range(full.as_slice(), 0, full.len()));
            assert(full@.subrange(0, full@.len() as int) =~= full@);
            (Cat { from_stdin: false, path: full }, tool_step(Vec::new(), req))
        },
    }
}

impl Cat {
    /// Continues with the result of the action last asked for.
    pub fn resume(&self, ev: ToolEvent) -> (s: ToolStep)
        ensures
            self.from_stdin ==> match ev {
                ToolEvent::StdinRead(Some(d)) => if d@.len() == 0 {
                    spec_tool_step(s, Seq::empty(), ToolRequest::Done)
                } else {
                    spec_tool_step(s, d@, ToolRequest::ReadStdin)
                },
                _ => spec_tool_step(s, Seq::empty(), ToolRequest::Done),
            },
            !self.from_stdin ==> match ev {
                ToolEvent::FileRead(Some(d)) => spec_tool_writes(s, spec_cat_file(d@), ToolRequest::Done),
                ToolEvent::FileRead(None) => spec_tool_writes(
                    s,
                    writes3("cat: cannot read ".spec_bytes(), self.path@, "\n".spec_bytes()),
                    ToolRequest::Done,
                ),
                _ => spec_tool_step(s, Seq::empty(), ToolRequest::Done),
            },
    {
        if self.from_stdin {
            match ev {
                ToolEvent::StdinRead(Some(d)) => {
                    if d.len() == 0 {
                        tool_step(Vec::new(), ToolRequest::Done)
                    } else {
                        tool_step(d, ToolRequest::ReadStdin)
                    }
                },
                _ => tool_step(Vec::new(), ToolRequest::Done),
            }
        } else {
            match ev {
                ToolEvent::FileRead(Some(d)) => {
                    let n = d.len();
                    if n == 0 {
                        return tool_step(Vec::new(), ToolRequest::Done);
                    }
                    let last = d[n - 1];
                    let ghost dv = d@;
                    let mut out = single(d);
                    if last != 0x0a {
                        let mut nl: Vec<u8> = Vec::new();
                        nl.push(0x0a);
                        push_write(&mut out, nl);
                        assert(writes_view(out@) =~= seq![dv, seq![0x0au8]]);
                    } else {
                        assert(writes_view(out@) =~= seq![dv]);
                    }
                    ToolStep { output: out, request: ToolRequest::Done }
                },
                ToolEvent::FileRead(None) => ToolStep {
                    output: three("cat: cannot read ", self.path.as_slice(), "\n"),
                    request: ToolRequest::Done,
                },
                _ => tool_step(Vec::new(), ToolRequest::Done),
            }
        }
    }
}

} // verus!
