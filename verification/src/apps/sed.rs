//! `sed s/old/new/[g]`: literal substitution on standard input or files.
use vstd::prelude::*;
use vstd::string::StringSliceAdditionalSpecFns;
use crate::bytes::{copy_range, append_bytes};
use crate::text::{split_words, spec_words};
use super::tool::{ToolEvent, ToolRequest, ToolStep, tool_step, str_vec, spec_tool_step};
use crate::writes::{append_writes, one_write, push_write, single, three, writes3, writes_view};
use super::cat::{resolve_path, spec_resolve_path};

verus! {

pub const MAX_SED_TOKENS: usize = 16;
pub const MAX_PATTERN: usize = 128;
pub const MAX_REPLACEMENT: usize = 128;
pub const MAX_IO_BUF: usize = 4096;

/// A parsed `s` command.
pub struct Script {
    pub pattern: Vec<u8>,
    pub replacement: Vec<u8>,
    pub global: bool,
}

/// Reading delimited text from `input[i..]` into `out` (at most `cap`
/// bytes): `\` takes the next byte literally, `delim` ends the text.
/// Gives the text and the index after the delimiter.
pub open spec fn spec_parse_delimited(input: Seq<u8>, i: int, delim: u8, cap: int, out: Seq<u8>, escaped: bool) -> Option<(Seq<u8>, int)>
    decreases input.len() - i,
{
    if i < 0 || i >= input.len() {
        None
    } else {
        let b = input[i];
        if escaped {
            if out.len() >= cap {
                None
            } else {
                spec_parse_delimited(input, i + 1, delim, cap, out.push(b), false)
            }
        } else if b == 0x5c {
            spec_parse_delimited(input, i + 1, delim, cap, out, true)
        } else if b == delim {
            Some((out, i + 1))
        } else if out.len() >= cap {
            None
        } else {
            spec_parse_delimited(input, i + 1, delim, cap, out.push(b), false)
        }
    }
}

/// Reads delimited text from `input[start..]` (see `spec_parse_delimited`).
pub fn parse_delimited(input: &[u8], start: usize, delim: u8, cap: usize) -> (r: Option<(Vec<u8>, usize)>)
    ensures
        match spec_parse_delimited(input@, start as int, delim, cap as int, Seq::empty(), false) {
            None => r is None,
            Some((o, j)) => r matches Some((v, k)) && v@ == o && k == j && o.len() <= cap && j
                <= input@.len(),
        },
{
    let n = input.len();
    let mut i = start;
    let mut out: Vec<u8> = Vec::new();
    let mut escaped = false;
    while i < n
        invariant
            start <= i || i == start,
            n == input@.len(),
            out@.len() <= cap,
            spec_parse_delimited(input@, start as int, delim, cap as int, Seq::empty(), false)
                == spec_parse_delimited(input@, i as int, delim, cap as int, out@, escaped),
        decreases n - i,
    {
        let b = input[i];
        if escaped {
            if out.len() >= cap {
                return None;
            }
            out.push(b);
            escaped = false;
            i = i + 1;
        } else if b == 0x5c {
            escaped = true;
            i = i + 1;
        } else if b == delim {
            proof {
                lemma_delimited_bound(input@, i as int, delim, cap as int, out@, escaped);
            }
            return Some((out, i + 1));
        } else {
            if out.len() >= cap {
                return None;
            }
            out.push(b);
            i = i + 1;
        }
    }
    None
}

proof fn lemma_delimited_bound(input: Seq<u8>, i: int, delim: u8, cap: int, out: Seq<u8>, escaped: bool)
    requires
        out.len() <= cap,
    ensures
        spec_parse_delimited(input, i, delim, cap, out, escaped) matches Some((o, j)) ==> o.len()
            <= cap && j <= input.len(),
    decreases input.len() - i,
{
    if 0 <= i < input.len() {
        let b = input[i];
        if escaped {
            if out.len() < cap {
                lemma_delimited_bound(input, i + 1, delim, cap, out.push(b), false);
            }
        } else if b == 0x5c {
            lemma_delimited_bound(input, i + 1, delim, cap, out, true);
        } else if b != delim && out.len() < cap {
            lemma_delimited_bound(input, i + 1, delim, cap, out.push(b), false);
        }
    }
}

/// The script `s<d>pattern<d>replacement<d>[g]`: pattern, replacement, global.
pub open spec fn spec_parse_script(s: Seq<u8>) -> Option<(Seq<u8>, Seq<u8>, bool)> {
    if s.len() < 4 || s[0] != 0x73 || s[1] == 0 {
        None
    } else {
        let d = s[1];
        match spec_parse_delimited(s, 2, d, MAX_PATTERN as int, Seq::empty(), false) {
            None => None,
            Some((pat, i1)) => match spec_parse_delimited(
                s,
                i1,
                d,
                MAX_REPLACEMENT as int,
                Seq::empty(),
                false,
            ) {
                None => None,
                Some((rep, i2)) => {
                    let flags = s.subrange(i2, s.len() as int);
                    if flags.len() == 0 {
                        Some((pat, rep, false))
                    } else if flags == seq![0x67u8] {
                        Some((pat, rep, true))
                    } else {
                        None
                    }
                },
            },
        }
    }
}

/// Parses a `sed` script.
pub fn parse_script(script: &[u8]) -> (r: Option<Script>)
    ensures
        match spec_parse_script(script@) {
            None => r is None,
            Some((p, rep, g)) => r matches Some(sc) && sc.pattern@ == p && sc.replacement@ == rep
                && sc.global == g,
        },
{
    if script.len() < 4 || script[0] != 0x73 {
        return None;
    }
    let delim = script[1];
    if delim == 0 {
        return None;
    }
    let (pattern, i1) = match parse_delimited(script, 2, delim, MAX_PATTERN) {
        Some(x) => x,
        None => return None,
    };
    let (replacement, i2) = match parse_delimited(script, i1, delim, MAX_REPLACEMENT) {
        Some(x) => x,
        None => return None,
    };
    let n = script.len();
    let global = if i2 == n {
        false
    } else if n - i2 == 1 && script[i2] == 0x67 {
        assert(script@.subrange(i2 as int, n as int) =~= seq![0x67u8]);
        true
    } else {
        proof {
            if script@.subrange(i2 as int, n as int) == seq![0x67u8] {
                assert(script@.subrange(i2 as int, n as int).len() == 1);
                assert(script@.subrange(i2 as int, n as int)[0] == script@[i2 as int]);
            }
        }
        return None;
    };
    Some(Script { pattern, replacement, global })
}

/// Whether `pattern` occurs in `input` at `i`.
pub open spec fn matches_at(input: Seq<u8>, i: int, pattern: Seq<u8>) -> bool {
    i + pattern.len() <= input.len() && input.subrange(i, i + pattern.len()) == pattern
}

/// `out` followed by as much of `v` as fits in `cap` bytes.
pub open spec fn push_capped(out: Seq<u8>, v: Seq<u8>, cap: int) -> Seq<u8> {
    if out.len() + v.len() <= cap {
        out + v
    } else if out.len() <= cap {
        out + v.subrange(0, cap - out.len())
    } else {
        out
    }
}

/// Substituting from `input[i..]` onto `out` (at most `cap` bytes): left to
/// right, each occurrence of `pattern` becomes `replacement` (only the first
/// one unless `global`); other bytes are copied.
pub open spec fn spec_subst(
    input: Seq<u8>,
    pattern: Seq<u8>,
    replacement: Seq<u8>,
    global: bool,
    cap: int,
    i: int,
    out: Seq<u8>,
) -> Seq<u8>
    decreases input.len() - i,
{
    if i < 0 || i >= input.len() || out.len() >= cap || pattern.len() == 0 {
        out
    } else if matches_at(input, i, pattern) {
        let o2 = push_capped(out, replacement, cap);
        if global {
            spec_subst(input, pattern, replacement, global, cap, i + pattern.len(), o2)
        } else {
            push_capped(o2, input.subrange(i + pattern.len(), input.len() as int), cap)
        }
    } else {
        spec_subst(input, pattern, replacement, global, cap, i + 1, out.push(input[i]))
    }
}

/// The result of running a script on `input` into at most `cap` bytes.
pub open spec fn spec_substitute(input: Seq<u8>, pattern: Seq<u8>, replacement: Seq<u8>, global: bool, cap: int) -> Seq<u8> {
    if pattern.len() == 0 {
        input.subrange(0, if input.len() <= cap {
            input.len() as int
        } else {
            cap
        })
    } else {
        spec_subst(input, pattern, replacement, global, cap, 0, Seq::empty())
    }
}

fn matches_at_exec(input: &[u8], i: usize, pattern: &[u8]) -> (r: bool)
    requires
        i <= input@.len(),
    ensures
        r == matches_at(input@, i as int, pattern@),
{
    if pattern.len() > input.len() - i {
        return false;
    }
    let n = input.len();
    let mut k: usize = 0;
    while k < pattern.len()
        invariant
            n == input@.len(),
            k <= pattern@.len(),
            i + pattern@.len() <= input@.len(),
            forall|j: int| 0 <= j < k ==> input@[i + j] == pattern@[j],
        decreases pattern@.len() - k,
    {
        if input[i + k] != pattern[k] {
            assert(input@.subrange(i as int, i + pattern@.len())[k as int] != pattern@[k as int]);
            return false;
        }
        k = k + 1;
    }
    assert(input@.subrange(i as int, i + pattern@.len()) =~= pattern@);
    true
}

fn push_capped_exec(out: &mut Vec<u8>, v: &[u8], from: usize, cap: usize)
    requires
        from <= v@.len(),
        old(out)@.len() <= cap,
    ensures
        final(out)@ == push_capped(old(out)@, v@.subrange(from as int, v@.len() as int), cap as int),
        final(out)@.len() <= cap,
{
    let ghost before = out@;
    let mut j = from;
    while j < v.len() && out.len() < cap
        invariant
            from <= j <= v@.len(),
            before.len() <= cap,
            out@.len() <= cap,
            out@ == before + v@.subrange(from as int, j as int),
        decreases v@.len() - j,
    {
        out.push(v[j]);
        j = j + 1;
        assert(v@.subrange(from as int, j as int) =~= v@.subrange(from as int, j - 1).push(v@[j - 1]));
    }
    proof {
        let tail = v@.subrange(from as int, v@.len() as int);
        if j == v@.len() {
            assert(v@.subrange(from as int, j as int) =~= tail);
            if before.len() + tail.len() > cap {
                assert(out@.len() == cap);
                assert(tail.subrange(0, cap - before.len()) =~= tail);
            }
        } else {
            assert(out@.len() == cap);
            assert(tail.subrange(0, cap - before.len()) =~= v@.subrange(from as int, j as int));
        }
    }
}

/// Runs a script on `input`, writing at most `cap` bytes.
pub fn substitute(input: &[u8], cap: usize, pattern: &[u8], replacement: &[u8], global: bool) -> (out: Vec<u8>)
    ensures
        out@ == spec_substitute(input@, pattern@, replacement@, global, cap as int),
        out@ == cut(spec_replace(input@, pattern@, replacement@, global, 0), cap as int),
        out@.len() <= cap,
{
    proof {
        lemma_substitute_direct(input@, pattern@, replacement@, global, cap as int);
    }
    if pattern.len() == 0 {
        let n = if input.len() <= cap {
            input.len()
        } else {
            cap
        };
        return copy_range(input, 0, n);
    }
    let n = input.len();
    let mut in_i: usize = 0;
    let mut out: Vec<u8> = Vec::new();
    while in_i < n && out.len() < cap
        invariant
            in_i <= n,
            n == input@.len(),
            pattern@.len() > 0,
            out@.len() <= cap,
            spec_subst(input@, pattern@, replacement@, global, cap as int, 0, Seq::empty())
                == spec_subst(input@, pattern@, replacement@, global, cap as int, in_i as int, out@),
            spec_substitute(input@, pattern@, replacement@, global, cap as int) == cut(
                spec_replace(input@, pattern@, replacement@, global, 0),
                cap as int,
            ),
        decreases n - in_i,
    {
        if matches_at_exec(input, in_i, pattern) {
            push_capped_exec(&mut out, replacement, 0, cap);
            assert(replacement@.subrange(0, replacement@.len() as int) =~= replacement@);
            in_i = in_i + pattern.len();
            if !global {
                push_capped_exec(&mut out, input, in_i, cap);
                return out;
            }
        } else {
            out.push(input[in_i]);
            in_i = in_i + 1;
        }
    }
    out
}

/// Where no occurrence of the pattern is, substitution copies its input
/// (as far as it fits).
pub proof fn lemma_no_match_copies(input: Seq<u8>, pattern: Seq<u8>, replacement: Seq<u8>, global: bool, cap: int)
    requires
        pattern.len() > 0,
        0 <= cap,
        forall|i: int| 0 <= i < input.len() ==> !matches_at(input, i, pattern),
    ensures
        spec_substitute(input, pattern, replacement, global, cap) == input.subrange(
            0,
            if input.len() <= cap {
                input.len() as int
            } else {
                cap
            },
        ),
{
    lemma_no_match_from(input, pattern, replacement, global, cap, 0);
    assert(input.subrange(0, 0) =~= Seq::<u8>::empty());
}

proof fn lemma_no_match_from(input: Seq<u8>, pattern: Seq<u8>, replacement: Seq<u8>, global: bool, cap: int, i: int)
    requires
        pattern.len() > 0,
        0 <= i <= input.len(),
        i <= cap,
        forall|j: int| 0 <= j < input.len() ==> !matches_at(input, j, pattern),
    ensures
        spec_subst(input, pattern, replacement, global, cap, i, input.subrange(0, i)) == input.subrange(
            0,
            if input.len() <= cap {
                input.len() as int
            } else {
                cap
            },
        ),
    decreases input.len() - i,
{
    if i < input.len() && i < cap {
        assert(input.subrange(0, i).push(input[i]) =~= input.subrange(0, i + 1));
        lemma_no_match_from(input, pattern, replacement, global, cap, i + 1);
    }
}

/// The first `cap` bytes of `s` (all of it when it is shorter).
pub open spec fn cut(s: Seq<u8>, cap: int) -> Seq<u8> {
    if s.len() <= cap {
        s
    } else {
        s.subrange(0, cap)
    }
}

/// `input[i..]` with occurrences of `pattern` replaced, scanning left to
/// right and going on after each replaced occurrence: all of them when
/// `global`, else only the first.
pub open spec fn spec_replace(input: Seq<u8>, pattern: Seq<u8>, replacement: Seq<u8>, global: bool, i: int) -> Seq<u8>
    decreases input.len() - i,
{
    if i < 0 || i >= input.len() {
        Seq::empty()
    } else if pattern.len() == 0 {
        input.subrange(i, input.len() as int)
    } else if matches_at(input, i, pattern) {
        replacement + if global {
            spec_replace(input, pattern, replacement, global, i + pattern.len())
        } else {
            input.subrange(i + pattern.len(), input.len() as int)
        }
    } else {
        seq![input[i]] + spec_replace(input, pattern, replacement, global, i + 1)
    }
}

proof fn lemma_cut_cut(a: Seq<u8>, b: Seq<u8>, cap: int)
    requires
        0 <= cap,
    ensures
        cut(cut(a, cap) + b, cap) == cut(a + b, cap),
{
    if a.len() > cap {
        assert(cut(cut(a, cap) + b, cap) =~= cut(a + b, cap));
    }
}

proof fn lemma_push_capped_cut(out: Seq<u8>, v: Seq<u8>, cap: int)
    requires
        out.len() <= cap,
    ensures
        push_capped(out, v, cap) == cut(out + v, cap),
{
    if out.len() + v.len() > cap {
        assert(out + v.subrange(0, cap - out.len()) =~= (out + v).subrange(0, cap));
    }
}

proof fn lemma_subst_direct(
    input: Seq<u8>,
    pattern: Seq<u8>,
    replacement: Seq<u8>,
    global: bool,
    cap: int,
    i: int,
    out: Seq<u8>,
)
    requires
        pattern.len() > 0,
        0 <= i <= input.len(),
        out.len() <= cap,
    ensures
        spec_subst(input, pattern, replacement, global, cap, i, out) == cut(
            out + spec_replace(input, pattern, replacement, global, i),
            cap,
        ),
    decreases input.len() - i,
{
    let rest = spec_replace(input, pattern, replacement, global, i);
    if i >= input.len() {
        assert(out + rest =~= out);
    } else if out.len() >= cap {
        assert(cut(out + rest, cap) =~= out);
    } else if matches_at(input, i, pattern) {
        let o2 = push_capped(out, replacement, cap);
        lemma_push_capped_cut(out, replacement, cap);
        if global {
            let r2 = spec_replace(input, pattern, replacement, global, i + pattern.len());
            lemma_subst_direct(input, pattern, replacement, global, cap, i + pattern.len(), o2);
            lemma_cut_cut(out + replacement, r2, cap);
            assert(out + replacement + r2 =~= out + rest);
        } else {
            let tail = input.subrange(i + pattern.len(), input.len() as int);
            lemma_push_capped_cut(o2, tail, cap);
            lemma_cut_cut(out + replacement, tail, cap);
            assert(out + replacement + tail =~= out + rest);
        }
    } else {
        let r2 = spec_replace(input, pattern, replacement, global, i + 1);
        lemma_subst_direct(input, pattern, replacement, global, cap, i + 1, out.push(input[i]));
        assert(out.push(input[i]) + r2 =~= out + rest);
    }
}

/// Substitution, said directly: the input with occurrences of the pattern
/// replaced left to right (all of them, or only the first), cut to the
/// capacity.
pub proof fn lemma_substitute_direct(input: Seq<u8>, pattern: Seq<u8>, replacement: Seq<u8>, global: bool, cap: int)
    requires
        0 <= cap,
    ensures
        spec_substitute(input, pattern, replacement, global, cap) == cut(
            spec_replace(input, pattern, replacement, global, 0),
            cap,
        ),
{
    if pattern.len() == 0 {
        if input.len() > 0 {
            assert(input.subrange(0, input.len() as int) =~= input);
        } else {
            assert(input =~= Seq::<u8>::empty());
        }
    } else {
        lemma_subst_direct(input, pattern, replacement, global, cap, 0, Seq::empty());
        assert(Seq::<u8>::empty() + spec_replace(input, pattern, replacement, global, 0)
            =~= spec_replace(input, pattern, replacement, global, 0));
    }
}

/// The state of a running `sed`: the script, then either standard input or
/// the files still to process.
pub struct Sed {
    pub script: Script,
    pub files: Vec<Vec<u8>>,
    pub next: usize,
    pub cwd: Vec<u8>,
    pub from_stdin: bool,
    pub path: Vec<u8>,
}

impl Sed {
    pub open spec fn wf(&self) -> bool {
        self.next <= self.files@.len()
    }
}

/// How `sed` starts: the message it prints and stops with, or its state.
pub enum SedStart {
    Stop(Vec<u8>),
    Run(Sed),
}

/// The usage line.
pub open spec fn spec_sed_usage() -> Seq<u8> {
    "usage: sed s/old/new/[g] [file...]\n".spec_bytes()
}

/// Starts `sed args` in directory `cwd`.
pub fn run(args: &str, cwd: &str) -> (r: SedStart)
    ensures
        ({
            let w = spec_words(args.spec_bytes());
            if w.len() > MAX_SED_TOKENS {
                r matches SedStart::Stop(m) && m@ == "sed: too many arguments\n".spec_bytes()
            } else if w.len() == 0 {
                r matches SedStart::Stop(m) && m@ == spec_sed_usage()
            } else {
                match spec_parse_script(w[0]) {
                    None => r matches SedStart::Stop(m) && m@
                        == "sed: unsupported script (expected s<delim>old<delim>new<delim>[g])\n".spec_bytes(),
                    Some((p, rep, g)) => r matches SedStart::Run(sed) && sed.script.pattern@ == p
                        && sed.script.replacement@ == rep && sed.script.global == g && sed.from_stdin
                        == (w.len() == 1) && sed.next == 0 && sed.cwd@ == cwd.spec_bytes()
                        && sed.files@.len() == w.len() - 1 && sed.wf() && forall|k: int|
                        0 <= k < w.len() - 1 ==> (#[trigger] sed.files@[k])@ == w[k + 1],
                }
            }
        }),
{
    let words = match split_words(args.as_bytes(), MAX_SED_TOKENS) {
        Some(w) => w,
        None => return SedStart::Stop(str_vec("sed: too many arguments\n")),
    };
    if words.len() == 0 {
        return SedStart::Stop(str_vec("usage: sed s/old/new/[g] [file...]\n"));
    }
    let script = match parse_script(words[0].as_slice()) {
        Some(s) => s,
        None => return SedStart::Stop(
            str_vec("sed: unsupported script (expected s<delim>old<delim>new<delim>[g])\n"),
        ),
    };
    let mut files: Vec<Vec<u8>> = Vec::new();
    let mut i: usize = 1;
    while i < words.len()
        invariant
            1 <= i <= words@.len(),
            files@.len() == i - 1,
            forall|k: int| 0 <= k < i - 1 ==> (#[trigger] files@[k])@ == words@[k + 1]@,
        decreases words@.len() - i,
    {
        files.push(copy_range(words[i].as_slice(), 0, words[i].len()));
        assert(words@[i as int]@.subrange(0, words@[i as int]@.len() as int) =~= words@[i as int]@);
        i = i + 1;
    }
    let cb = cwd.as_bytes();
    let cwdv = copy_range(cb, 0, cb.len());
    assert(cb@.subrange(0, cb@.len() as int) =~= cb@);
    SedStart::Run(Sed { script, files, next: 0, cwd: cwdv, from_stdin: words.len() == 1, path: Vec::new() })
}

impl Sed {
    /// The first action of a started `sed`.
    pub fn start(&mut self) -> (s: ToolStep)
        requires
            old(self).wf(),
        ensures
            final(self).wf(),
            final(self).from_stdin == old(self).from_stdin,
            final(self).script == old(self).script,
            old(self).from_stdin ==> spec_tool_step(s, Seq::empty(), ToolRequest::ReadStdin)
                && final(self).next == old(self).next,
            !old(self).from_stdin ==> self_file_step(*old(self), *final(self), Seq::empty(), s),
    {
        if self.from_stdin {
            return tool_step(Vec::new(), ToolRequest::ReadStdin);
        }
        self.next_file()
    }

    /// Goes on to the next file (after printing `out`), or ends.
    fn next_file(&mut self) -> (s: ToolStep)
        requires
            !old(self).from_stdin,
            old(self).wf(),
        ensures
            final(self).wf(),
            self_file_step(*old(self), *final(self), Seq::empty(), s),
            writes_view(s.output@) == skip_messages((final(self).next - old(self).next) as nat),
            final(self).from_stdin == old(self).from_stdin,
            final(self).script == old(self).script,
    {
        let mut out: Vec<Vec<u8>> = Vec::new();
        assert(writes_view(out@) =~= skip_messages(0));
        while self.next < self.files.len()
            invariant
                !self.from_stdin,
                !old(self).from_stdin,
                old(self).wf(),
                self.script == old(self).script,
                self.files == old(self).files,
                self.cwd == old(self).cwd,
                old(self).next <= self.next,
                old(self).next <= self.files@.len() ==> self.next <= self.files@.len(),
                writes_view(out@) == skip_messages((self.next - old(self).next) as nat),
                forall|j: int|
                    old(self).next <= j < self.next ==> spec_resolve_path(
                        #[trigger] old(self).files@[j]@,
                        old(self).cwd@,
                    ) is None,
            decreases self.files@.len() - self.next,
        {
            let f = self.next;
            match resolve_path(self.files[f].as_slice(), self.cwd.as_slice()) {
                Some(p) => {
                    let req = ToolRequest::ReadFile(copy_range(p.as_slice(), 0, p.len()));
                    assert(p@.subrange(0, p@.len() as int) =~= p@);
                    self.path = p;
                    return ToolStep { output: out, request: req };
                },
                None => {
                    proof {
                        reveal_strlit("sed: path too long\n");
                    }
                    push_write(&mut out, str_vec("sed: path too long\n"));
                    self.next = self.next + 1;
                    assert(writes_view(out@) =~= skip_messages((self.next - old(self).next) as nat));
                },
            }
        }
        ToolStep { output: out, request: ToolRequest::Done }
    }

    /// Continues with the result of the action last asked for.
    pub fn resume(&mut self, ev: ToolEvent) -> (s: ToolStep)
        requires
            old(self).wf(),
        ensures
            final(self).wf(),
            final(self).from_stdin == old(self).from_stdin,
            final(self).script == old(self).script,
            old(self).from_stdin ==> match ev {
                ToolEvent::StdinRead(None) => spec_tool_step(
                    s,
                    "sed: read error\n".spec_bytes(),
                    ToolRequest::Done,
                ),
                ToolEvent::StdinRead(Some(d)) => if d@.len() == 0 {
                    spec_tool_step(s, Seq::empty(), ToolRequest::Done)
                } else {
                    spec_tool_step(
                        s,
                        spec_substitute(
                            d@,
                            old(self).script.pattern@,
                            old(self).script.replacement@,
                            old(self).script.global,
                            MAX_IO_BUF as int,
                        ),
                        ToolRequest::ReadStdin,
                    )
                },
                _ => spec_tool_step(s, Seq::empty(), ToolRequest::Done),
            },
            !old(self).from_stdin && old(self).next < old(self).files@.len() ==> match ev {
                ToolEvent::FileRead(r) => {
                    let path = old(self).path@;
                    let msg = match r {
                        None => writes3("sed: cannot read ".spec_bytes(), path, "\n".spec_bytes()),
                        Some(d) => one_write(spec_substitute(
                            d@,
                            old(self).script.pattern@,
                            old(self).script.replacement@,
                            old(self).script.global,
                            MAX_IO_BUF as int,
                        )),
                    };
                    self_file_step(
                        Sed { next: (old(self).next + 1) as usize, ..*old(self) },
                        *final(self),
                        msg,
                        s,
                    )
                },
                _ => spec_tool_step(s, Seq::empty(), ToolRequest::Done),
            },
    {
        if self.from_stdin {
            return match ev {
                ToolEvent::StdinRead(None) => tool_step(str_vec("sed: read error\n"), ToolRequest::Done),
                ToolEvent::StdinRead(Some(d)) => {
                    if d.len() == 0 {
                        tool_step(Vec::new(), ToolRequest::Done)
                    } else {
                        let out = substitute(
                            d.as_slice(),
                            MAX_IO_BUF,
                            self.script.pattern.as_slice(),
                            self.script.replacement.as_slice(),
                            self.script.global,
                        );
                        tool_step(out, ToolRequest::ReadStdin)
                    }
                },
                _ => tool_step(Vec::new(), ToolRequest::Done),
            };
        }
        if self.next >= self.files.len() {
            return tool_step(Vec::new(), ToolRequest::Done);
        }
        match ev {
            ToolEvent::FileRead(r) => {
                let msg = match r {
                    None => three("sed: cannot read ", self.path.as_slice(), "\n"),
                    Some(d) => single(
                        substitute(
                            d.as_slice(),
                            MAX_IO_BUF,
                            self.script.pattern.as_slice(),
                            self.script.replacement.as_slice(),
                            self.script.global,
                        ),
                    ),
                };
                self.next = self.next + 1;
                let ghost mid = *self;
                let ghost msgv = writes_view(msg@);
                let rest = self.next_file();
                let mut out = msg;
                append_writes(&mut out, rest.output);
                let s = ToolStep { output: out, request: rest.request };
                assert(mid == Sed { next: (old(self).next + 1) as usize, ..*old(self) });
                assert(self_file_step(mid, *self, msgv, s));
                s
            },
            _ => tool_step(Vec::new(), ToolRequest::Done),
        }
    }
}

/// Going on from file `sed0.next` after printing `out`: files whose path is too
/// long are reported and skipped, then the next file is read, or `sed` ends.
pub open spec fn self_file_step(sed0: Sed, sed1: Sed, out: Seq<Seq<u8>>, s: ToolStep) -> bool {
    let k = sed1.next as int;
    &&& sed1.files == sed0.files
    &&& sed1.cwd == sed0.cwd
    &&& sed0.next <= k <= sed0.files@.len()
    &&& forall|j: int|
        sed0.next <= j < k ==> spec_resolve_path(#[trigger] sed0.files@[j]@, sed0.cwd@) is None
    &&& writes_view(s.output@) =~= out + skip_messages((k - sed0.next) as nat)
    &&& if k < sed0.files@.len() {
        s.request matches ToolRequest::ReadFile(p) && spec_resolve_path(sed0.files@[k]@, sed0.cwd@)
            == Some(p@) && sed1.path@ == p@
    } else {
        s.request is Done
    }
}

/// `n` reports of a path too long, one write each.
pub open spec fn skip_messages(n: nat) -> Seq<Seq<u8>>
    decreases n,
{
    if n == 0 {
        Seq::empty()
    } else {
        skip_messages((n - 1) as nat).push("sed: path too long\n".spec_bytes())
    }
}

} // verus!
