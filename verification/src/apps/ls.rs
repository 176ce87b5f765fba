//! `ls`: prints a directory listing one name per line.
use vstd::prelude::*;
use vstd::string::StringSliceAdditionalSpecFns;
use crate::bytes::{copy_range, append_bytes};
use super::tool::{ToolEvent, ToolRequest, ToolStep, tool_step, str_vec, spec_tool_step, spec_tool_writes};
use crate::writes::{push_write, writes_view};

verus! {

/// The index of the first NUL byte of `s` at or after `i` (or its length).
pub open spec fn nul_index(s: Seq<u8>, i: int) -> int
    decreases s.len() - i,
{
    if i < 0 || i >= s.len() {
        if i < 0 {
            0
        } else {
            i
        }
    } else if s[i] == 0 {
        i
    } else {
        nul_index(s, i + 1)
    }
}

/// The writes that print the NUL-separated names in `s[i..]`: each
/// non-empty name, then a line end, each in a write of its own.
pub open spec fn spec_listing_lines(s: Seq<u8>, i: int) -> Seq<Seq<u8>>
    decreases s.len() - i,
{
    if i < 0 || i >= s.len() {
        Seq::empty()
    } else {
        let j = nul_index(s, i);
        if j < i {
            Seq::empty()
        } else {
            let line = if j > i {
                seq![s.subrange(i, j), seq![0x0au8]]
            } else {
                Seq::empty()
            };
            if j >= s.len() {
                line
            } else {
                line + spec_listing_lines(s, j + 1)
            }
        }
    }
}

proof fn lemma_nul_index_bounds(s: Seq<u8>, i: int)
    requires
        0 <= i <= s.len(),
    ensures
        i <= nul_index(s, i) <= s.len(),
    decreases s.len() - i,
{
    if i < s.len() && s[i] != 0 {
        lemma_nul_index_bounds(s, i + 1);
    }
}

/// The writes `ls` makes for the listing `buf` that the kernel returned.
pub fn format_listing(buf: &[u8]) -> (out: Vec<Vec<u8>>)
    ensures
        writes_view(out@) == spec_listing_lines(buf@, 0),
{
    let n = buf.len();
    let mut out: Vec<Vec<u8>> = Vec::new();
    let mut i: usize = 0;
    assert(writes_view(out@) =~= Seq::<Seq<u8>>::empty());
    while i < n
        invariant
            i <= n,
            n == buf@.len(),
            spec_listing_lines(buf@, 0) == writes_view(out@) + spec_listing_lines(buf@, i as int),
        decreases n - i,
    {
        proof {
            lemma_nul_index_bounds(buf@, i as int);
        }
        let mut j = i;
        while j < n && buf[j] != 0
            invariant
                i <= j <= n,
                n == buf@.len(),
                nul_index(buf@, i as int) == nul_index(buf@, j as int),
            decreases n - j,
        {
            j = j + 1;
        }
        let ghost before = writes_view(out@);
        if j > i {
            push_write(&mut out, copy_range(buf, i, j));
            let mut nl: Vec<u8> = Vec::new();
            nl.push(0x0a);
            push_write(&mut out, nl);
        }
        proof {
            let line = if j > i {
                seq![buf@.subrange(i as int, j as int), seq![0x0au8]]
            } else {
                Seq::<Seq<u8>>::empty()
            };
            assert(writes_view(out@) =~= before + line);
            if j < n {
                assert(spec_listing_lines(buf@, i as int) == line + spec_listing_lines(buf@, j + 1));
                assert(writes_view(out@) + spec_listing_lines(buf@, j + 1) =~= before
                    + spec_listing_lines(buf@, i as int));
            } else {
                assert(spec_listing_lines(buf@, i as int) == line);
                assert(writes_view(out@) + spec_listing_lines(buf@, n as int) =~= before
                    + spec_listing_lines(buf@, i as int));
            }
        }
        if j < n {
            i = j + 1;
        } else {
            i = n;
        }
    }
    assert(writes_view(out@) =~= writes_view(out@) + spec_listing_lines(buf@, i as int));
    out
}

/// Room for the listing that `ls` asks for.
pub const LS_BUF: usize = 1024;

/// Starts `ls` in directory `cwd`: it asks for the directory's listing.
pub fn run(cwd: &str) -> (s: ToolStep)
    ensures
        s.output@.len() == 0,
        s.request matches ToolRequest::ListDir(p, cap) && p@ == cwd.spec_bytes() && cap == LS_BUF,
{
    tool_step(Vec::new(), ToolRequest::ListDir(str_vec(cwd), LS_BUF))
}

/// Prints the listing that came back (one name per line), and ends.
pub fn resume(ev: ToolEvent) -> (s: ToolStep)
    ensures
        match ev {
            ToolEvent::DirListed(buf) => spec_tool_writes(
                s,
                if buf@.len() <= LS_BUF {
                    spec_listing_lines(buf@, 0)
                } else {
                    Seq::empty()
                },
                ToolRequest::Done,
            ),
            _ => spec_tool_step(s, Seq::empty(), ToolRequest::Done),
        },
{
    match ev {
        ToolEvent::DirListed(buf) => {
            if buf.len() <= LS_BUF {
                ToolStep { output: format_listing(buf.as_slice()), request: ToolRequest::Done }
            } else {
                tool_step(Vec::new(), ToolRequest::Done)
            }
        },
        _ => tool_step(Vec::new(), ToolRequest::Done),
    }
}

} // verus!
