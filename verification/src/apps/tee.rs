//! `tee`: copies standard input to standard output and into files.
use vstd::prelude::*;
use vstd::string::StringSliceAdditionalSpecFns;
use crate::bytes::copy_range;
use crate::text::{split_words, spec_words};
use super::tool::{ToolEvent, ToolRequest, ToolStep, tool_step, str_vec, spec_tool_step};
use crate::writes::{three, writes3, writes_view};
use super::sed::push_capped;

verus! {

pub const MAX_TEE_FILES: usize = 16;
pub const MAX_STREAM: usize = 4096;

/// A running `tee`: its output files, what it kept of its input, and which
/// file it writes next once input has ended.
pub struct Tee {
    pub files: Vec<Vec<u8>>,
    pub stream: Vec<u8>,
    pub writing: bool,
    pub next: usize,
}

impl Tee {
    pub open spec fn wf(&self) -> bool {
        self.stream@.len() <= MAX_STREAM && self.next <= self.files@.len()
    }
}

/// How `tee` starts: the message it stops with, or its state.
pub enum TeeStart {
    Stop(Vec<u8>),
    Run(Tee),
}

/// Starts `tee args`; it then reads standard input.
pub fn run(args: &str) -> (r: TeeStart)
    ensures
        ({
            let w = spec_words(args.spec_bytes());
            if w.len() > MAX_TEE_FILES {
                r matches TeeStart::Stop(m) && m@ == "tee: too many output files\n".spec_bytes()
            } else {
                r matches TeeStart::Run(t) && t.wf() && !t.writing && t.next == 0 && t.stream@.len()
                    == 0 && t.files@.len() == w.len() && forall|k: int|
                    0 <= k < w.len() ==> (#[trigger] t.files@[k])@ == w[k]
            }
        }),
{
    match split_words(args.as_bytes(), MAX_TEE_FILES) {
        None => TeeStart::Stop(str_vec("tee: too many output files\n")),
        Some(files) => TeeStart::Run(Tee { files, stream: Vec::new(), writing: false, next: 0 }),
    }
}

impl Tee {
    /// Asks to write the next file, or ends.
    fn write_next(&self, out: Vec<Vec<u8>>) -> (s: ToolStep)
        requires
            self.wf(),
        ensures
            s.output@ == out@,
            self.next < self.files@.len() ==> (s.request matches ToolRequest::WriteFile(f, d) && f@
                == self.files@[self.next as int]@ && d@ == self.stream@),
            self.next >= self.files@.len() ==> s.request is Done,
    {
        if self.next < self.files.len() {
            let f = &self.files[self.next];
            let fv = copy_range(f.as_slice(), 0, f.len());
            let dv = copy_range(self.stream.as_slice(), 0, self.stream.len());
            assert(f@.subrange(0, f@.len() as int) =~= f@);
            assert(self.stream@.subrange(0, self.stream@.len() as int) =~= self.stream@);
            ToolStep { output: out, request: ToolRequest::WriteFile(fv, dv) }
        } else {
            ToolStep { output: out, request: ToolRequest::Done }
        }
    }

    /// Continues with the result of the action last asked for.
    pub fn resume(&mut self, ev: ToolEvent) -> (s: ToolStep)
        requires
            old(self).wf(),
        ensures
            final(self).wf(),
            final(self).files == old(self).files,
            !old(self).writing ==> match ev {
                ToolEvent::StdinRead(None) => spec_tool_step(
                    s,
                    "tee: read error\n".spec_bytes(),
                    ToolRequest::Done,
                ),
                ToolEvent::StdinRead(Some(d)) => if d@.len() == 0 {
                    final(self).writing && final(self).next == 0 && final(self).stream
                        == old(self).stream && s.output@.len() == 0 && (old(self).files@.len() > 0
                        ==> (s.request matches ToolRequest::WriteFile(f, data) && f@
                        == old(self).files@[0]@ && data@ == old(self).stream@)) && (
                    old(self).files@.len() == 0 ==> s.request is Done)
                } else {
                    !final(self).writing && spec_tool_step(s, d@, ToolRequest::ReadStdin)
                        && final(self).stream@ == push_capped(
                        old(self).stream@,
                        d@,
                        MAX_STREAM as int,
                    )
                },
                _ => spec_tool_step(s, Seq::empty(), ToolRequest::Done),
            },
            old(self).writing && old(self).next < old(self).files@.len() ==> match ev {
                ToolEvent::FileWritten(ok) => {
                    let msg = if ok {
                        Seq::empty()
                    } else {
                        writes3(
                            "tee: cannot write ".spec_bytes(),
                            old(self).files@[old(self).next as int]@,
                            "\n".spec_bytes(),
                        )
                    };
                    let k = final(self).next;
                    k == old(self).next + 1 && final(self).stream == old(self).stream
                        && writes_view(s.output@) == msg && (k < old(self).files@.len() ==> (
                    s.request matches ToolRequest::WriteFile(f, data) && f@ == old(self).files@[k as int]@ && data@ == old(self).stream@)) && (k >= old(self).files@.len() ==> s.request is Done)
                },
                _ => spec_tool_step(s, Seq::empty(), ToolRequest::Done),
            },
    {
        if !self.writing {
            match ev {
                ToolEvent::StdinRead(None) => tool_step(str_vec("tee: read error\n"), ToolRequest::Done),
                ToolEvent::StdinRead(Some(d)) => {
                    if d.len() == 0 {
                        self.writing = true;
                        self.next = 0;
                        self.write_next(Vec::new())
                    } else {
                        let ghost before = self.stream@;
                        if self.stream.len() < MAX_STREAM {
                            let room = MAX_STREAM - self.stream.len();
                            let n = if d.len() < room {
                                d.len()
                            } else {
                                room
                            };
                            let mut k: usize = 0;
                            while k < n
                                invariant
                                    k <= n,
                                    n <= d@.len(),
                                    before.len() + n <= MAX_STREAM,
                                    self.stream@ == before + d@.subrange(0, k as int),
                                    self.files == old(self).files,
                                    self.next == old(self).next,
                                    self.next <= self.files@.len(),
                                    !self.writing,
                                decreases n - k,
                            {
                                self.stream.push(d[k]);
                                k = k + 1;
                                assert(d@.subrange(0, k as int) =~= d@.subrange(0, k - 1).push(
                                    d@[k - 1],
                                ));
                            }
                            proof {
                                if before.len() + d@.len() <= MAX_STREAM {
                                    assert(d@.subrange(0, n as int) =~= d@);
                                }
                            }
                        } else {
                            assert(d@.subrange(0, MAX_STREAM - before.len()) =~= Seq::<u8>::empty());
                            assert(before + Seq::<u8>::empty() =~= before);
                        }
                        tool_step(d, ToolRequest::ReadStdin)
                    }
                },
                _ => tool_step(Vec::new(), ToolRequest::Done),
            }
        } else {
            if self.next >= self.files.len() {
                return tool_step(Vec::new(), ToolRequest::Done);
            }
            match ev {
                ToolEvent::FileWritten(ok) => {
                    let msg = if ok {
                        let e: Vec<Vec<u8>> = Vec::new();
                        assert(writes_view(e@) =~= Seq::<Seq<u8>>::empty());
                        e
                    } else {
                        three("tee: cannot write ", self.files[self.next].as_slice(), "\n")
                    };
                    self.next = self.next + 1;
                    self.write_next(msg)
                },
                _ => tool_step(Vec::new(), ToolRequest::Done),
            }
        }
    }
}

} // verus!
