//! The shell's decisions, as steps: each step prints its output and may ask
//! for one outside action (running a program, reading or writing a file),
//! whose result comes back as the event of the next step.
use vstd::prelude::*;
use vstd::string::StringSliceAdditionalSpecFns;
use vstd::utf8::valid_utf8;
use crate::bytes::{bytes_eq, copy_range, append_bytes};
use crate::text::{trim, spec_trim};
use super::envvars::{EnvTable, build_env_str, set_env, spec_build_env, spec_set_env, MAX_ENV_VARS};
use super::lexer::{Token, tokens_in, spec_token_error_message};
use crate::writes::{one_write, push_write, single, three, writes3, writes_view};
use super::parse::{
    LineParse, LineView, spec_parse_line, spec_split_stages, StageError, StageParse, opt_view, parse_line, parse_stage, spec_parse_stage,
    spec_stage_error_message, split_stages, str_vec, SplitError,
};
use super::paths::{
    is_builtin, resolve_bin_path, resolve_path, set_cwd, spec_is_builtin, spec_new_cwd,
    spec_resolve_bin_path, spec_resolve_faults, spec_resolve_path, cwd_key,
};

verus! {

/// Longest line typed at the prompt.
pub const MAX_LINE: usize = 256;
/// Largest file or program output moved through a pipe or redirection.
pub const MAX_IO_BUF: usize = 4096;
/// The prompt printed before each line.
pub const PROMPT: &'static str = "smultron$ ";

/// An outside action the shell asks for.
pub enum Request {
    /// Run the program at `path`; `stdin` is its input (`None`: the console),
    /// its output is captured when `capture`.
    Exec { path: Vec<u8>, args: Vec<u8>, env: Vec<u8>, stdin: Option<Vec<u8>>, capture: bool },
    ReadFile { path: Vec<u8> },
    WriteFile { path: Vec<u8>, data: Vec<u8> },
}

/// The result of the action last asked for.
pub enum Event {
    ExecDone { status: u64, output: Vec<u8> },
    FileRead(Option<Vec<u8>>),
    FileWritten(bool),
}

/// What one step does: print `output`, then perform `request` (if any);
/// `exit` ends the shell; `fault` marks the case where the shell stops
/// with a panic (a relative path under an empty working directory).
pub struct Step {
    pub output: Vec<Vec<u8>>,
    pub request: Option<Request>,
    pub exit: bool,
    pub fault: bool,
}

/// A pipeline being run: its tokens, its stages, the stage at hand, and the
/// data flowing into it.
pub struct Pipeline {
    pub tokens: Vec<Token>,
    pub parsed: Vec<u8>,
    pub stages: Vec<(usize, usize)>,
    pub idx: usize,
    pub pipe: Vec<u8>,
    pub stage: StageParse,
    pub path: Vec<u8>,
}

impl Pipeline {
    pub open spec fn wf(&self) -> bool {
        &&& tokens_in(self.parsed@, self.tokens@)
        &&& self.stages@.len() <= 4
        &&& self.idx <= self.stages@.len()
        &&& forall|k: int|
            0 <= k < self.stages@.len() ==> (#[trigger] self.stages@[k]).0 < self.stages@[k].1
                <= self.tokens@.len()
        &&& self.pipe@.len() <= MAX_IO_BUF
    }

    pub open spec fn is_last(&self) -> bool {
        self.idx + 1 >= self.stages@.len()
    }

    pub open spec fn capture(&self) -> bool {
        !self.is_last() || self.stage.out_file is Some
    }

    pub open spec fn stdin(&self) -> Option<Seq<u8>> {
        if self.idx == 0 {
            if self.stage.in_file is Some {
                Some(self.pipe@)
            } else {
                None
            }
        } else {
            Some(self.pipe@)
        }
    }
}

/// What the shell waits for.
pub enum Phase {
    Idle,
    AwaitSimple { cmd: Vec<u8> },
    AwaitRead(Pipeline),
    AwaitExec(Pipeline),
    AwaitWrite(Pipeline),
}

/// The shell: its environment and what it waits for.
pub struct Shell {
    pub env: EnvTable,
    pub phase: Phase,
}

pub open spec fn phase_wf(p: Phase) -> bool {
    match p {
        Phase::AwaitRead(pl) => pl.wf() && pl.idx < pl.stages@.len(),
        Phase::AwaitExec(pl) => pl.wf() && pl.idx < pl.stages@.len(),
        Phase::AwaitWrite(pl) => pl.wf() && pl.idx < pl.stages@.len(),
        _ => true,
    }
}

impl Shell {
    pub open spec fn wf(&self) -> bool {
        self.env.wf() && phase_wf(self.phase)
    }

    pub open spec fn is_idle(&self) -> bool {
        self.phase is Idle
    }
}

/// A step that only makes the writes `ws`.
pub open spec fn step_says(s: Step, ws: Seq<Seq<u8>>) -> bool {
    writes_view(s.output@) == ws && s.request is None && !s.exit && !s.fault
}

/// A step that only prints `out`, in one write.
pub open spec fn step_prints(s: Step, out: Seq<u8>) -> bool {
    step_says(s, one_write(out))
}

fn done(output: Vec<u8>) -> (s: Step)
    ensures
        step_prints(s, output@),
        s.output@.len() == one_write(output@).len(),
{
    Step { output: single(output), request: None, exit: false, fault: false }
}

fn done_writes(output: Vec<Vec<u8>>) -> (s: Step)
    ensures
        step_says(s, writes_view(output@)),
{
    Step { output, request: None, exit: false, fault: false }
}

fn truncated(d: &[u8]) -> (v: Vec<u8>)
    ensures
        v@ == if d@.len() <= MAX_IO_BUF {
            d@
        } else {
            d@.subrange(0, MAX_IO_BUF as int)
        },
{
    if d.len() <= MAX_IO_BUF {
        assert(d@.subrange(0, d@.len() as int) =~= d@);
        copy_range(d, 0, d.len())
    } else {
        copy_range(d, 0, MAX_IO_BUF)
    }
}

/// The banner printed when the shell starts, in two writes.
pub open spec fn spec_banner() -> Seq<Seq<u8>> {
    one_write("smultron shell (userspace)\n".spec_bytes()) + one_write(
        "type 'help' for commands\n".spec_bytes(),
    )
}

/// Starts the shell: `CWD` is `/`; gives the shell and the banner's writes.
pub fn run() -> (r: (Shell, Vec<Vec<u8>>))
    ensures
        r.0.wf(),
        r.0.is_idle(),
        writes_view(r.1@) == spec_banner(),
        r.0.env@ == spec_set_env(super::envvars::spec_empty_env(), cwd_key(), seq![0x2fu8]).0,
{
    let mut env = EnvTable::new();
    let mut key: Vec<u8> = Vec::new();
    key.push(0x43);
    key.push(0x57);
    key.push(0x44);
    let mut root: Vec<u8> = Vec::new();
    root.push(0x2f);
    assert(key@ =~= cwd_key());
    assert(root@ =~= seq![0x2fu8]);
    assert(env@ == super::envvars::spec_empty_env());
    let _ = set_env(&mut env, key.as_slice(), root.as_slice());
    let mut banner = single(str_vec("smultron shell (userspace)\n"));
    push_write(&mut banner, str_vec("type 'help' for commands\n"));
    (Shell { env, phase: Phase::Idle }, banner)
}

/// The help text, in three writes.
pub open spec fn spec_help() -> Seq<Seq<u8>> {
    writes3(
        "commands: help, clear, exit, env, export, cd, <binary in /bin>\n".spec_bytes(),
        "shell I/O: cmd1 | cmd2, cmd > file, cmd < file\n".spec_bytes(),
        "quotes: use '...' or \"...\" for grouped args/paths\n".spec_bytes(),
    )
}

/// The index of the first `=` in `s` (or its length).
pub open spec fn spec_eq_index(s: Seq<u8>, i: nat) -> nat
    decreases s.len() - i,
{
    if i >= s.len() {
        s.len()
    } else if s[i as int] == 0x3d {
        i
    } else {
        spec_eq_index(s, i + 1)
    }
}

/// Running a program named by a simple command: its request, or the
/// message printed when it names none.
pub open spec fn spec_exec_simple(env: Seq<(Seq<u8>, Seq<u8>)>, cmd: Seq<u8>, args: Seq<u8>, s: Step) -> bool {
    match spec_resolve_bin_path(cmd) {
        None => step_says(s, writes3("unknown command: ".spec_bytes(), cmd, "\n".spec_bytes())),
        Some(p) => s.output@.len() == 0 && !s.exit && !s.fault && (s.request matches Some(
            Request::Exec { path, args: a, env: e, stdin, capture },
        ) && path@ == p && a@ == args && e@ == spec_build_env(env, MAX_ENV_VARS as nat).0
            && stdin is None && !capture),
    }
}

/// What a command without pipes or redirections does: the environment
/// after (`env1`), what the shell then waits for (`ph`), and its step.
pub open spec fn spec_dispatch_simple(
    env0: Seq<(Seq<u8>, Seq<u8>)>,
    cmd: Seq<u8>,
    args: Seq<u8>,
    env1: Seq<(Seq<u8>, Seq<u8>)>,
    ph: Phase,
    s: Step,
) -> bool {
        if cmd == "help".spec_bytes() {
            step_says(s, spec_help()) && env1 == env0
        } else if cmd == "clear".spec_bytes() {
            step_prints(s, "\x1b[2J\x1b[H".spec_bytes()) && env1 == env0
        } else if cmd == "exit".spec_bytes() {
            s.exit && s.output@.len() == 0 && s.request is None && env1 == env0
        } else if cmd == "cd".spec_bytes() {
            s.request is None && !s.fault && !s.exit && match spec_new_cwd(env0, args) {
                Some(c) => env1 == spec_set_env(env0, cwd_key(), c).0 && writes_view(s.output@)
                    == one_write(spec_set_env(env0, cwd_key(), c).1),
                None => env1 == env0 && s.output@.len() == 0,
            }
        } else if cmd == "env".spec_bytes() {
            step_prints(s, spec_build_env(env0, MAX_ENV_VARS as nat).0) && env1
                == env0
        } else if cmd == "export".spec_bytes() {
            s.request is None && !s.fault && !s.exit && ({
                let i = spec_eq_index(args, 0);
                if i < args.len() {
                    let k = spec_trim(args.subrange(0, i as int));
                    let v = spec_trim(args.subrange(i as int + 1, args.len() as int));
                    env1 == spec_set_env(env0, k, v).0 && writes_view(s.output@)
                        == one_write(spec_set_env(env0, k, v).1)
                } else {
                    env1 == env0 && writes_view(s.output@)
                        == one_write("usage: export KEY=VALUE\n".spec_bytes())
                }
            })
        } else {
            spec_exec_simple(env0, cmd, args, s) && env1 == env0 && (
            s.request is Some ==> (ph matches Phase::AwaitSimple { cmd: c } && c@
                == cmd))
        }
}

proof fn lemma_builtin_names_differ()
    ensures
        "help".spec_bytes() != "exit".spec_bytes(),
        "clear".spec_bytes() != "exit".spec_bytes(),
{
    reveal_strlit("help");
    reveal_strlit("clear");
    reveal_strlit("exit");
    vstd::string::is_ascii_spec_bytes("help");
    vstd::string::is_ascii_spec_bytes("clear");
    vstd::string::is_ascii_spec_bytes("exit");
    assert(vstd::string::is_ascii("help"));
    assert(vstd::string::is_ascii("clear"));
    assert(vstd::string::is_ascii("exit"));
    assert("help".spec_bytes()[0] != "exit".spec_bytes()[0]);
    assert("clear".spec_bytes()[0] != "exit".spec_bytes()[0]);
}

/// Runs a command without pipes or redirections.
pub fn dispatch_simple(sh: &mut Shell, cmd: &[u8], args: &[u8]) -> (s: Step)
    requires
        old(sh).wf(),
        old(sh).is_idle(),
    ensures
        final(sh).wf(),
        s.exit == (cmd@ == "exit".spec_bytes()),
        spec_dispatch_simple(old(sh).env@, cmd@, args@, final(sh).env@, final(sh).phase, s),
        s.request is None ==> final(sh).is_idle(),
{
    proof {
        lemma_builtin_names_differ();
    }
    if bytes_eq(cmd, "help".as_bytes()) {
        let mut out = single(str_vec("commands: help, clear, exit, env, export, cd, <binary in /bin>\n"));
        push_write(&mut out, str_vec("shell I/O: cmd1 | cmd2, cmd > file, cmd < file\n"));
        push_write(&mut out, str_vec("quotes: use '...' or \"...\" for grouped args/paths\n"));
        return done_writes(out);
    }
    if bytes_eq(cmd, "clear".as_bytes()) {
        return done(str_vec("\x1b[2J\x1b[H"));
    }
    if bytes_eq(cmd, "exit".as_bytes()) {
        return Step { output: Vec::new(), request: None, exit: true, fault: false };
    }
    if bytes_eq(cmd, "cd".as_bytes()) {
        let msg = set_cwd(&mut sh.env, args);
        return done(msg);
    }
    if bytes_eq(cmd, "env".as_bytes()) {
        return done(build_env_str(&sh.env));
    }
    if bytes_eq(cmd, "export".as_bytes()) {
        let i = eq_index(args);
        if i < args.len() {
            let k = trim(copy_range(args, 0, i).as_slice());
            let v = trim(copy_range(args, i + 1, args.len()).as_slice());
            let msg = set_env(&mut sh.env, k.as_slice(), v.as_slice());
            return done(msg);
        } else {
            return done(str_vec("usage: export KEY=VALUE\n"));
        }
    }
    let env_str = build_env_str(&sh.env);
    match resolve_bin_path(cmd) {
        None => done_writes(three("unknown command: ", cmd, "\n")),
        Some(path) => {
            sh.phase = Phase::AwaitSimple { cmd: copy_range(cmd, 0, cmd.len()) };
            assert(cmd@.subrange(0, cmd@.len() as int) =~= cmd@);
            assert(args@.subrange(0, args@.len() as int) =~= args@);
            Step {
                output: Vec::new(),
                request: Some(
                    Request::Exec {
                        path,
                        args: copy_range(args, 0, args.len()),
                        env: env_str,
                        stdin: None,
                        capture: false,
                    },
                ),
                exit: false,
                fault: false,
            }
        },
    }
}

/// Running the stage at hand: its request, or the message printed when it
/// names no program.
pub open spec fn spec_exec_stage(env: Seq<(Seq<u8>, Seq<u8>)>, pl: Pipeline, s: Step) -> bool {
    match spec_resolve_bin_path(pl.stage.cmd@) {
        None => step_says(s, writes3("unknown command: ".spec_bytes(), pl.stage.cmd@, "\n".spec_bytes())),
        Some(p) => s.output@.len() == 0 && !s.exit && !s.fault && (s.request matches Some(
            Request::Exec { path, args, env: e, stdin, capture },
        ) && path@ == p && args@ == pl.stage.args@ && e@ == spec_build_env(
            env,
            MAX_ENV_VARS as nat,
        ).0 && opt_view(stdin) == pl.stdin() && capture == pl.capture()),
    }
}

/// Asks to run the stage at hand.
fn exec_stage(env: &EnvTable, pl: Pipeline) -> (r: (Phase, Step))
    requires
        env.wf(),
        pl.wf(),
        pl.idx < pl.stages@.len(),
    ensures
        spec_exec_stage(env@, pl, r.1),
        r.1.request is Some ==> (r.0 matches Phase::AwaitExec(p2) && p2 == pl),
        r.1.request is None ==> r.0 is Idle,
        phase_wf(r.0),
{
    let is_last = pl.idx + 1 >= pl.stages.len();
    let stdin = if pl.idx == 0 {
        if pl.stage.in_file.is_some() {
            Some(copy_range(pl.pipe.as_slice(), 0, pl.pipe.len()))
        } else {
            None
        }
    } else {
        Some(copy_range(pl.pipe.as_slice(), 0, pl.pipe.len()))
    };
    assert(pl.pipe@.subrange(0, pl.pipe@.len() as int) =~= pl.pipe@);
    let capture = !is_last || pl.stage.out_file.is_some();
    let env_str = build_env_str(env);
    match resolve_bin_path(pl.stage.cmd.as_slice()) {
        None => {
            let out = three("unknown command: ", pl.stage.cmd.as_slice(), "\n");
            (Phase::Idle, done_writes(out))
        },
        Some(path) => {
            let args = copy_range(pl.stage.args.as_slice(), 0, pl.stage.args.len());
            assert(pl.stage.args@.subrange(0, pl.stage.args@.len() as int) =~= pl.stage.args@);
            let step = Step {
                output: Vec::new(),
                request: Some(Request::Exec { path, args, env: env_str, stdin, capture }),
                exit: false,
                fault: false,
            };
            (Phase::AwaitExec(pl), step)
        },
    }
}

pub open spec fn spec_builtin_in_pipe_msg() -> Seq<u8> {
    "error: pipes/redirection are only supported for /bin commands\n".spec_bytes()
}

/// Starting stage `pl.idx` of a pipeline (or finishing it, past its last stage).
pub open spec fn spec_start_stage(env: Seq<(Seq<u8>, Seq<u8>)>, pl: Pipeline, ph: Phase, s: Step) -> bool {
    let k = pl.idx as int;
    let n = pl.stages@.len() as int;
    if k >= n {
        step_prints(s, Seq::empty()) && ph is Idle
    } else {
        let (from, to) = pl.stages@[k];
        match spec_parse_stage(pl.tokens@.subrange(from as int, to as int), pl.parsed@, k == 0, k + 1 == n) {
            Err(e) => step_prints(s, spec_stage_error_message(e).spec_bytes()) && ph is Idle,
            Ok((c, a, i, o)) => if spec_is_builtin(c) {
                step_prints(s, spec_builtin_in_pipe_msg()) && ph is Idle
            } else {
                let at = |p: Pipeline|
                    p.tokens@ == pl.tokens@ && p.parsed@ == pl.parsed@ && p.stages@ == pl.stages@
                        && p.idx == pl.idx && p.stage.cmd@ == c && p.stage.args@ == a && opt_view(
                        p.stage.in_file,
                    ) == i && opt_view(p.stage.out_file) == o;
                if k == 0 && i is Some {
                    if spec_resolve_faults(env, i.unwrap()) {
                        s.fault && s.request is None && ph is Idle
                    } else {
                        match spec_resolve_path(env, i.unwrap()) {
                            None => step_prints(s, "redirection error: path too long\n".spec_bytes())
                                && ph is Idle,
                            Some(path) => s.output@.len() == 0 && !s.exit && !s.fault && (
                            s.request matches Some(Request::ReadFile { path: rp }) && rp@ == path)
                                && (ph matches Phase::AwaitRead(p2) && at(p2) && p2.path@ == path),
                        }
                    }
                } else {
                    exists|p2: Pipeline|
                        at(p2) && p2.pipe@ == pl.pipe@ && spec_exec_stage(env, p2, s) && (
                        s.request is Some ==> ph == Phase::AwaitExec(p2)) && (s.request is None
                            ==> ph is Idle)
                }
            },
        }
    }
}

/// Starts stage `pl.idx` of a pipeline.
#[verifier::rlimit(40)]
fn start_stage(env: &EnvTable, pl: Pipeline) -> (r: (Phase, Step))
    requires
        env.wf(),
        pl.wf(),
    ensures
        spec_start_stage(env@, pl, r.0, r.1),
        phase_wf(r.0),
        !r.1.exit,
{
    if pl.idx >= pl.stages.len() {
        return (Phase::Idle, done(Vec::new()));
    }
    let (from, to) = pl.stages[pl.idx];
    let n = pl.stages.len();
    let stage = match parse_stage(
        pl.tokens.as_slice(),
        from,
        to,
        pl.parsed.as_slice(),
        pl.idx == 0,
        pl.idx + 1 == n,
    ) {
        Ok(st) => st,
        Err(e) => return (Phase::Idle, done(str_vec(e.message()))),
    };
    if is_builtin(stage.cmd.as_slice()) {
        return (
            Phase::Idle,
            done(str_vec("error: pipes/redirection are only supported for /bin commands\n")),
        );
    }
    let idx = pl.idx;
    let in_is_some = stage.in_file.is_some();
    let mut pl2 = Pipeline { stage, ..pl };
    if idx == 0 && in_is_some {
        let path_arg = match &pl2.stage.in_file {
            Some(p) => copy_range(p.as_slice(), 0, p.len()),
            None => Vec::new(),
        };
        assert(path_arg@ == opt_view(pl2.stage.in_file).unwrap());
        if resolve_faults(env, path_arg.as_slice()) {
            return (Phase::Idle, Step { output: Vec::new(), request: None, exit: false, fault: true });
        }
        match resolve_path(env, path_arg.as_slice()) {
            None => (Phase::Idle, done(str_vec("redirection error: path too long\n"))),
            Some(path) => {
                let req = Request::ReadFile { path: copy_range(path.as_slice(), 0, path.len()) };
                assert(path@.subrange(0, path@.len() as int) =~= path@);
                pl2.path = path;
                (
                    Phase::AwaitRead(pl2),
                    Step { output: Vec::new(), request: Some(req), exit: false, fault: false },
                )
            },
        }
    } else {
        let ghost p2 = pl2;
        let r = exec_stage(env, pl2);
        assert(spec_exec_stage(env@, p2, r.1));
        r
    }
}

/// Whether resolving `path` hits the empty working directory (see `spec_resolve_faults`).
fn resolve_faults(env: &EnvTable, path: &[u8]) -> (r: bool)
    requires
        env.wf(),
    ensures
        r == spec_resolve_faults(env@, path@),
{
    if path.len() > 0 && path[0] == 0x2f {
        return false;
    }
    let mut key: Vec<u8> = Vec::new();
    key.push(0x43);
    key.push(0x57);
    key.push(0x44);
    assert(key@ =~= cwd_key());
    match super::envvars::get_env(env, key.as_slice()) {
        Some(v) => {
            if v.len() == 0 {
                assert(v@ =~= Seq::<u8>::empty());
            }
            v.len() == 0
        },
        None => false,
    }
}

/// A pipeline at its first stage.
pub open spec fn fresh_pipeline(pl: Pipeline, parsed: Seq<u8>, tokens: Seq<Token>, stages: Seq<(int, int)>) -> bool {
    &&& pl.tokens@ == tokens
    &&& pl.parsed@ == parsed
    &&& pl.stages@.len() == stages.len()
    &&& forall|k: int|
        0 <= k < stages.len() ==> (#[trigger] pl.stages@[k]).0 == stages[k].0 && pl.stages@[k].1
            == stages[k].1
    &&& pl.idx == 0
    &&& pl.pipe@.len() == 0
}

/// What a typed line does (see `parse_line`, `dispatch_simple` and `spec_start_stage`).
pub open spec fn spec_dispatch(
    env0: Seq<(Seq<u8>, Seq<u8>)>,
    line: Seq<u8>,
    env1: Seq<(Seq<u8>, Seq<u8>)>,
    ph: Phase,
    s: Step,
) -> bool {
    match spec_parse_line(env0, line) {
        LineView::Empty => step_prints(s, Seq::empty()) && env1 == env0 && ph is Idle,
        LineView::Error(e) => step_says(
            s,
            writes3("parse error: ".spec_bytes(), spec_token_error_message(e).spec_bytes(), "\n".spec_bytes()),
        ) && env1 == env0 && ph is Idle,
        LineView::Simple(c, None) => step_prints(s, "parse error: args too long\n".spec_bytes())
            && env1 == env0 && ph is Idle,
        LineView::Simple(c, Some(a)) => spec_dispatch_simple(
            env0,
            c,
            if valid_utf8(a) {
                a
            } else {
                Seq::empty()
            },
            env1,
            ph,
            s,
        ),
        LineView::Compound(p, t) => env1 == env0 && match spec_split_stages(t) {
            Err(SplitError::TooManyStages) => step_prints(
                s,
                "parse error: too many pipeline stages\n".spec_bytes(),
            ) && ph is Idle,
            Err(SplitError::EmptyStage) => step_prints(
                s,
                "parse error: empty pipeline stage\n".spec_bytes(),
            ) && ph is Idle,
            Ok(st) => exists|pl: Pipeline|
                fresh_pipeline(pl, p, t, st) && spec_start_stage(env0, pl, ph, s),
        },
    }
}

impl Shell {
    /// Runs a typed line: a built-in command, a program, or a pipeline.
    pub fn dispatch(&mut self, line: &[u8]) -> (s: Step)
        requires
            old(self).wf(),
            old(self).is_idle(),
        ensures
            final(self).wf(),
            spec_dispatch(old(self).env@, line@, final(self).env@, final(self).phase, s),
            s.request is None ==> final(self).is_idle(),
            s.exit <==> (spec_parse_line(old(self).env@, line@) matches LineView::Simple(c, Some(_))
                && c == "exit".spec_bytes()),
    {
        match parse_line(&self.env, line) {
            LineParse::Empty => done(Vec::new()),
            LineParse::Error(e) => done_writes(three("parse error: ", e.message().as_bytes(), "\n")),
            LineParse::Simple { cmd, args } => match args {
                None => done(str_vec("parse error: args too long\n")),
                Some(a) => {
                    let a2 = if crate::bytes::is_valid_utf8(a.as_slice()) {
                        a
                    } else {
                        Vec::new()
                    };
                    dispatch_simple(self, cmd.as_slice(), a2.as_slice())
                },
            },
            LineParse::Compound { parsed, tokens } => match split_stages(tokens.as_slice()) {
                Err(SplitError::TooManyStages) => done(
                    str_vec("parse error: too many pipeline stages\n"),
                ),
                Err(SplitError::EmptyStage) => done(str_vec("parse error: empty pipeline stage\n")),
                Ok(stages) => {
                    let pl = Pipeline {
                        tokens,
                        parsed,
                        stages,
                        idx: 0,
                        pipe: Vec::new(),
                        stage: StageParse {
                            cmd: Vec::new(),
                            args: Vec::new(),
                            in_file: None,
                            out_file: None,
                        },
                        path: Vec::new(),
                    };
                    let ghost gpl = pl;
                    let (ph, st) = start_stage(&self.env, pl);
                    self.phase = ph;
                    assert(fresh_pipeline(
                        gpl,
                        gpl.parsed@,
                        gpl.tokens@,
                        spec_split_stages(gpl.tokens@).unwrap(),
                    ));
                    st
                },
            },
        }
    }
}

/// Whether `ev` is what phase `ph` waits for.
pub open spec fn awaits(ph: Phase, ev: Event) -> bool {
    match ph {
        Phase::Idle => false,
        Phase::AwaitSimple { .. } => ev is ExecDone,
        Phase::AwaitRead(_) => ev is FileRead,
        Phase::AwaitExec(_) => ev is ExecDone,
        Phase::AwaitWrite(_) => ev is FileWritten,
    }
}

pub open spec fn spec_truncated(d: Seq<u8>) -> Seq<u8> {
    if d.len() <= MAX_IO_BUF {
        d
    } else {
        d.subrange(0, MAX_IO_BUF as int)
    }
}

/// `pl` moved on to its next stage, with `pipe` flowing into it.
pub open spec fn next_stage(pl: Pipeline, p2: Pipeline, pipe: Seq<u8>) -> bool {
    &&& p2.tokens@ == pl.tokens@
    &&& p2.parsed@ == pl.parsed@
    &&& p2.stages@ == pl.stages@
    &&& p2.idx == pl.idx + 1
    &&& p2.pipe@ == pipe
}

/// What the result of an outside action does, in phase `ph0`.
pub open spec fn spec_resume(
    env: Seq<(Seq<u8>, Seq<u8>)>,
    ph0: Phase,
    ev: Event,
    ph: Phase,
    s: Step,
) -> bool {
    match (ph0, ev) {
        (Phase::AwaitSimple { cmd }, Event::ExecDone { status, output: _ }) => ph is Idle
            && if status == u64::MAX {
            step_says(s, writes3("unknown command: ".spec_bytes(), cmd@, "\n".spec_bytes()))
        } else {
            step_prints(s, Seq::empty())
        },
        (Phase::AwaitRead(pl), Event::FileRead(r)) => match r {
            None => ph is Idle && step_says(
                s,
                writes3("redirection error: cannot read ".spec_bytes(), pl.path@, "\n".spec_bytes()),
            ),
            Some(d) => exists|p2: Pipeline|
                p2.tokens@ == pl.tokens@ && p2.parsed@ == pl.parsed@ && p2.stages@ == pl.stages@
                    && p2.idx == pl.idx && p2.stage == pl.stage && p2.pipe@ == spec_truncated(d@)
                    && spec_exec_stage(env, p2, s) && (s.request is Some ==> ph == Phase::AwaitExec(
                    p2,
                )) && (s.request is None ==> ph is Idle),
        },
        (Phase::AwaitExec(pl), Event::ExecDone { status, output }) => if status == u64::MAX {
            ph is Idle && step_says(
                s,
                writes3("unknown command: ".spec_bytes(), pl.stage.cmd@, "\n".spec_bytes()),
            )
        } else if pl.capture() && !pl.is_last() {
            exists|p2: Pipeline|
                next_stage(pl, p2, spec_truncated(output@)) && spec_start_stage(env, p2, ph, s)
        } else if pl.capture() {
            let f = opt_view(pl.stage.out_file).unwrap();
            if spec_resolve_faults(env, f) {
                s.fault && s.request is None && ph is Idle
            } else {
                match spec_resolve_path(env, f) {
                    None => ph is Idle && step_prints(
                        s,
                        "redirection error: path too long\n".spec_bytes(),
                    ),
                    Some(path) => s.output@.len() == 0 && !s.exit && !s.fault && (
                    s.request matches Some(Request::WriteFile { path: wp, data }) && wp@ == path
                        && data@ == spec_truncated(output@)) && (ph matches Phase::AwaitWrite(p2)
                        && p2.path@ == path && p2.idx == pl.idx && p2.stages@ == pl.stages@
                        && p2.tokens@ == pl.tokens@ && p2.parsed@ == pl.parsed@),
                }
            }
        } else {
            exists|p2: Pipeline| next_stage(pl, p2, pl.pipe@) && spec_start_stage(env, p2, ph, s)
        },
        (Phase::AwaitWrite(pl), Event::FileWritten(ok)) => if !ok {
            ph is Idle && step_says(
                s,
                writes3("redirection error: cannot write ".spec_bytes(), pl.path@, "\n".spec_bytes()),
            )
        } else {
            exists|p2: Pipeline| next_stage(pl, p2, pl.pipe@) && spec_start_stage(env, p2, ph, s)
        },
        _ => false,
    }
}

impl Shell {
    /// Continues with the result of the action that the last step asked for.
    pub fn resume(&mut self, ev: Event) -> (s: Step)
        requires
            old(self).wf(),
            awaits(old(self).phase, ev),
        ensures
            final(self).wf(),
            final(self).env@ == old(self).env@,
            spec_resume(old(self).env@, old(self).phase, ev, final(self).phase, s),
            s.request is None ==> final(self).is_idle(),
            !s.exit,
    {
        let mut ph = Phase::Idle;
        core::mem::swap(&mut ph, &mut self.phase);
        match ph {
            Phase::AwaitSimple { cmd } => {
                match ev {
                    Event::ExecDone { status, output: _ } => {
                        if status == u64::MAX {
                            done_writes(three("unknown command: ", cmd.as_slice(), "\n"))
                        } else {
                            done(Vec::new())
                        }
                    },
                    _ => done(Vec::new()),
                }
            },
            Phase::AwaitRead(pl) => {
                match ev {
                    Event::FileRead(r) => match r {
                        None => done_writes(three("redirection error: cannot read ", pl.path.as_slice(), "\n")),
                        Some(d) => {
                            let pipe = truncated(d.as_slice());
                            let p2 = Pipeline { pipe, ..pl };
                            let ghost g2 = p2;
                            let (phn, st) = exec_stage(&self.env, p2);
                            self.phase = phn;
                            assert(spec_exec_stage(self.env@, g2, st));
                            st
                        },
                    },
                    _ => done(Vec::new()),
                }
            },
            Phase::AwaitExec(pl) => {
                match ev {
                    Event::ExecDone { status, output } => {
                        let is_last = pl.idx + 1 >= pl.stages.len();
                        let capture = !is_last || pl.stage.out_file.is_some();
                        if status == u64::MAX {
                            done_writes(three("unknown command: ", pl.stage.cmd.as_slice(), "\n"))
                        } else if capture && !is_last {
                            let pipe = truncated(output.as_slice());
                            let p2 = Pipeline { pipe, idx: pl.idx + 1, ..pl };
                            let ghost g2 = p2;
                            let (phn, st) = start_stage(&self.env, p2);
                            self.phase = phn;
                            assert(next_stage(pl, g2, spec_truncated(output@)));
                            st
                        } else if capture {
                            let f = match &pl.stage.out_file {
                                Some(f) => copy_range(f.as_slice(), 0, f.len()),
                                None => Vec::new(),
                            };
                            assert(f@ == opt_view(pl.stage.out_file).unwrap());
                            if resolve_faults(&self.env, f.as_slice()) {
                                return Step { output: Vec::new(), request: None, exit: false, fault: true };
                            }
                            match resolve_path(&self.env, f.as_slice()) {
                                None => done(str_vec("redirection error: path too long\n")),
                                Some(path) => {
                                    let data = truncated(output.as_slice());
                                    let req = Request::WriteFile {
                                        path: copy_range(path.as_slice(), 0, path.len()),
                                        data,
                                    };
                                    assert(path@.subrange(0, path@.len() as int) =~= path@);
                                    let p2 = Pipeline { path, ..pl };
                                    self.phase = Phase::AwaitWrite(p2);
                                    Step { output: Vec::new(), request: Some(req), exit: false, fault: false }
                                },
                            }
                        } else {
                            let p2 = Pipeline { idx: pl.idx + 1, ..pl };
                            let ghost g2 = p2;
                            let (phn, st) = start_stage(&self.env, p2);
                            self.phase = phn;
                            assert(next_stage(pl, g2, pl.pipe@));
                            st
                        }
                    },
                    _ => done(Vec::new()),
                }
            },
            Phase::AwaitWrite(pl) => {
                match ev {
                    Event::FileWritten(ok) => {
                        if !ok {
                            done_writes(three("redirection error: cannot write ", pl.path.as_slice(), "\n"))
                        } else {
                            let p2 = Pipeline { idx: pl.idx + 1, ..pl };
                            let ghost g2 = p2;
                            let (phn, st) = start_stage(&self.env, p2);
                            self.phase = phn;
                            assert(next_stage(pl, g2, pl.pipe@));
                            st
                        }
                    },
                    _ => done(Vec::new()),
                }
            },
            Phase::Idle => done(Vec::new()),
        }
    }
}

/// The line being typed at the prompt.
pub struct LineEditor {
    pub buf: Vec<u8>,
}

/// What a typed byte does: `echo` goes to the console; `line` is the
/// finished line once Enter is typed.
pub struct LineStep {
    pub echo: Vec<u8>,
    pub line: Option<Vec<u8>>,
}

impl LineEditor {
    /// An empty line.
    pub fn new() -> (e: Self)
        ensures
            e.buf@.len() == 0,
    {
        LineEditor { buf: Vec::new() }
    }

    /// Takes one typed byte: Enter (CR or LF) finishes the line, Backspace
    /// (8 or 127) erases the last byte, any other byte is added while the
    /// line is shorter than `MAX_LINE`.
    pub fn read_line_step(&mut self, b: u8) -> (r: LineStep)
        requires
            old(self).buf@.len() <= MAX_LINE,
        ensures
            final(self).buf@.len() <= MAX_LINE,
            if b == 13 || b == 10 {
                r.echo@ == seq![10u8] && (r.line matches Some(l) && l@ == old(self).buf@)
                    && final(self).buf@.len() == 0
            } else if b == 8 || b == 127 {
                r.line is None && if old(self).buf@.len() > 0 {
                    final(self).buf@ == old(self).buf@.drop_last() && r.echo@ == seq![
                        8u8,
                        32u8,
                        8u8,
                    ]
                } else {
                    final(self).buf@ == old(self).buf@ && r.echo@.len() == 0
                }
            } else {
                r.line is None && if old(self).buf@.len() < MAX_LINE {
                    final(self).buf@ == old(self).buf@.push(b) && r.echo@ == seq![b]
                } else {
                    final(self).buf@ == old(self).buf@ && r.echo@.len() == 0
                }
            },
    {
        let mut echo: Vec<u8> = Vec::new();
        if b == 13 || b == 10 {
            echo.push(10);
            let mut line: Vec<u8> = Vec::new();
            core::mem::swap(&mut line, &mut self.buf);
            assert(echo@ =~= seq![10u8]);
            return LineStep { echo, line: Some(line) };
        }
        if b == 8 || b == 127 {
            if self.buf.len() > 0 {
                self.buf.pop();
                echo.push(8);
                echo.push(32);
                echo.push(8);
                assert(echo@ =~= seq![8u8, 32u8, 8u8]);
            }
            return LineStep { echo, line: None };
        }
        if self.buf.len() < MAX_LINE {
            self.buf.push(b);
            echo.push(b);
            assert(echo@ =~= seq![b]);
        }
        LineStep { echo, line: None }
    }
}

fn eq_index(s: &[u8]) -> (r: usize)
    ensures
        r == spec_eq_index(s@, 0),
        r <= s@.len(),
{
    let mut i: usize = 0;
    while i < s.len() && s[i] != 0x3d
        invariant
            i <= s@.len(),
            spec_eq_index(s@, 0) == spec_eq_index(s@, i as nat),
        decreases s@.len() - i,
    {
        i = i + 1;
    }
    i
}

} // verus!
