//! From a typed line to commands: the line's words, pipeline stages and redirections.
use vstd::prelude::*;
use vstd::string::StringSliceAdditionalSpecFns;
use vstd::utf8::valid_utf8;
use crate::bytes::{copy_range, append_bytes, is_valid_utf8};
use crate::text::{trim, spec_trim};
use super::envvars::EnvTable;
use super::lexer::{
    MAX_ARGS, MAX_EXPANDED, Token, TokenError, TokenKind, expand_line, join_word_tokens,
    spec_expand, spec_join_words, spec_token_error_message, spec_token_word, spec_tokenize,
    token_word, tokenize_command, tokens_in,
};

verus! {

/// Most stages in one pipeline.
pub const MAX_PIPE_STAGES: usize = 4;
/// Most words in one stage.
pub const MAX_STAGE_TOKENS: usize = 32;

/// A fresh vector holding the bytes of `s`.
pub fn str_vec(s: &str) -> (v: Vec<u8>)
    ensures
        v@ == s.spec_bytes(),
{
    let b = s.as_bytes();
    let v = copy_range(b, 0, b.len());
    assert(b@.subrange(0, b@.len() as int) =~= b@);
    v
}

/// The text of `line` as the shell reads it: empty unless valid UTF-8, then trimmed.
pub open spec fn spec_decoded_trim(line: Seq<u8>) -> Seq<u8> {
    if valid_utf8(line) {
        spec_trim(line)
    } else {
        spec_trim(Seq::empty())
    }
}

/// How a typed line reads.
pub enum LineParse {
    /// Nothing to do.
    Empty,
    /// The line could not be tokenized.
    Error(TokenError),
    /// A command without operators and its argument string (`None`: too long).
    Simple { cmd: Vec<u8>, args: Option<Vec<u8>> },
    /// A line with pipes or redirections: its tokens and their text.
    Compound { parsed: Vec<u8>, tokens: Vec<Token> },
}

/// How a typed line reads (see `LineParse`).
pub enum LineView {
    Empty,
    Error(TokenError),
    Simple(Seq<u8>, Option<Seq<u8>>),
    Compound(Seq<u8>, Seq<Token>),
}

pub open spec fn line_view(r: LineParse) -> LineView {
    match r {
        LineParse::Empty => LineView::Empty,
        LineParse::Error(e) => LineView::Error(e),
        LineParse::Simple { cmd, args } => LineView::Simple(cmd@, opt_view(args)),
        LineParse::Compound { parsed, tokens } => LineView::Compound(parsed@, tokens@),
    }
}

/// How `line` reads in environment `env`.
pub open spec fn spec_parse_line(env: Seq<(Seq<u8>, Seq<u8>)>, line: Seq<u8>) -> LineView {
    let cmd = spec_decoded_trim(line);
    let ex = spec_expanded(env, line);
    if cmd.len() == 0 || ex.len() == 0 {
        LineView::Empty
    } else {
        match spec_tokenize(ex) {
            Err(e) => LineView::Error(e),
            Ok((p, t)) => if t.len() == 0 {
                LineView::Empty
            } else if has_operator(t) {
                LineView::Compound(p, t)
            } else {
                LineView::Simple(
                    spec_token_word(t[0], p),
                    spec_join_words(t.subrange(1, t.len() as int), p),
                )
            },
        }
    }
}

/// The expanded, trimmed text of a typed line.
pub open spec fn spec_expanded(env: Seq<(Seq<u8>, Seq<u8>)>, line: Seq<u8>) -> Seq<u8> {
    spec_decoded_trim(spec_expand(env, spec_decoded_trim(line), 0, Seq::empty(), MAX_EXPANDED as int))
}

pub open spec fn has_operator(tokens: Seq<Token>) -> bool {
    exists|k: int| 0 <= k < tokens.len() && (#[trigger] tokens[k]).kind != TokenKind::Word
}

/// Reads a typed line: decoding, trimming, `$` expansion, tokenizing.
pub fn parse_line(env: &EnvTable, line: &[u8]) -> (r: LineParse)
    requires
        env.wf(),
    ensures
        ({
            let cmd = spec_decoded_trim(line@);
            let ex = spec_expanded(env@, line@);
            if cmd.len() == 0 || ex.len() == 0 {
                r is Empty
            } else {
                match spec_tokenize(ex) {
                    Err(e) => r matches LineParse::Error(x) && x == e,
                    Ok((p, t)) => if t.len() == 0 {
                        r is Empty
                    } else if has_operator(t) {
                        r matches LineParse::Compound { parsed, tokens } && parsed@ == p
                            && tokens@ == t
                    } else {
                        r matches LineParse::Simple { cmd, args } && cmd@ == spec_token_word(t[0], p)
                            && match spec_join_words(t.subrange(1, t.len() as int), p) {
                            Some(a) => args matches Some(av) && av@ == a,
                            None => args is None,
                        }
                    },
                }
            }
        }),
        r matches LineParse::Compound { parsed, tokens } ==> tokens_in(parsed@, tokens@)
            && tokens@.len() > 0 && tokens@.len() <= super::lexer::MAX_TOKENS,
        line_view(r) == spec_parse_line(env@, line@),
{
    let empty: Vec<u8> = Vec::new();
    let decoded = if is_valid_utf8(line) {
        trim(line)
    } else {
        trim(empty.as_slice())
    };
    if decoded.len() == 0 {
        return LineParse::Empty;
    }
    let expanded = expand_line(env, decoded.as_slice(), MAX_EXPANDED);
    let ex = if is_valid_utf8(expanded.as_slice()) {
        trim(expanded.as_slice())
    } else {
        trim(empty.as_slice())
    };
    if ex.len() == 0 {
        return LineParse::Empty;
    }
    let (parsed, tokens) = match tokenize_command(ex.as_slice()) {
        Ok(pt) => pt,
        Err(e) => {
            return LineParse::Error(e);
        },
    };
    let n = tokens.len();
    if n == 0 {
        return LineParse::Empty;
    }
    let i = first_operator(tokens.as_slice());
    if i < n {
        assert(tokens@[i as int].kind != TokenKind::Word);
        assert(has_operator(tokens@));
        return LineParse::Compound { parsed, tokens };
    }
    let cmd = token_word(tokens[0], parsed.as_slice());
    let args = join_word_tokens(tokens.as_slice(), 1, n, parsed.as_slice());
    LineParse::Simple { cmd, args }
}

/// The index of the first operator token (or the number of tokens).
fn first_operator(tokens: &[Token]) -> (i: usize)
    ensures
        i <= tokens@.len(),
        i < tokens@.len() ==> tokens@[i as int].kind != TokenKind::Word,
        forall|k: int| 0 <= k < i ==> (#[trigger] tokens@[k]).kind == TokenKind::Word,
{
    let n = tokens.len();
    let mut i: usize = 0;
    while i < n && tokens[i].kind == TokenKind::Word
        invariant
            i <= n,
            n == tokens@.len(),
            forall|k: int| 0 <= k < i ==> (#[trigger] tokens@[k]).kind == TokenKind::Word,
        decreases n - i,
    {
        i = i + 1;
    }
    i
}

/// Why a pipeline stage is refused; each is reported on a line of its own.
#[derive(Clone, Copy, Debug, PartialEq, Eq, Structural)]
pub enum StageError {
    InvalidIn,
    MissingIn,
    InvalidOut,
    MissingOut,
    UnexpectedPipe,
    TooManyTokens,
    EmptyStage,
    ArgsTooLong,
}

pub open spec fn spec_stage_error_message(e: StageError) -> &'static str {
    match e {
        StageError::InvalidIn => "parse error: invalid '<' placement\n",
        StageError::MissingIn => "parse error: missing file after '<'\n",
        StageError::InvalidOut => "parse error: invalid '>' placement\n",
        StageError::MissingOut => "parse error: missing file after '>'\n",
        StageError::UnexpectedPipe => "parse error: unexpected '|'\n",
        StageError::TooManyTokens => "parse error: too many tokens\n",
        StageError::EmptyStage => "parse error: empty command stage\n",
        StageError::ArgsTooLong => "parse error: args too long\n",
    }
}

impl StageError {
    /// The line printed for this error.
    pub fn message(&self) -> (r: &'static str)
        ensures
            r == spec_stage_error_message(*self),
    {
        match self {
            StageError::InvalidIn => "parse error: invalid '<' placement\n",
            StageError::MissingIn => "parse error: missing file after '<'\n",
            StageError::InvalidOut => "parse error: invalid '>' placement\n",
            StageError::MissingOut => "parse error: missing file after '>'\n",
            StageError::UnexpectedPipe => "parse error: unexpected '|'\n",
            StageError::TooManyTokens => "parse error: too many tokens\n",
            StageError::EmptyStage => "parse error: empty command stage\n",
            StageError::ArgsTooLong => "parse error: args too long\n",
        }
    }
}

pub open spec fn opt_view(o: Option<Vec<u8>>) -> Option<Seq<u8>> {
    match o {
        Some(v) => Some(v@),
        None => None,
    }
}

/// A parsed pipeline stage: the command, its argument string, and its redirections.
pub struct StageParse {
    pub cmd: Vec<u8>,
    pub args: Vec<u8>,
    pub in_file: Option<Vec<u8>>,
    pub out_file: Option<Vec<u8>>,
}

/// The words and redirections of `ts[i..]`, read after `words`, `inf`, `outf`.
pub open spec fn spec_stage_scan(
    ts: Seq<Token>,
    parsed: Seq<u8>,
    allow_in: bool,
    allow_out: bool,
    i: int,
    words: Seq<Seq<u8>>,
    inf: Option<Seq<u8>>,
    outf: Option<Seq<u8>>,
) -> Result<(Seq<Seq<u8>>, Option<Seq<u8>>, Option<Seq<u8>>), StageError>
    decreases ts.len() - i,
{
    if i < 0 || i >= ts.len() {
        Ok((words, inf, outf))
    } else {
        match ts[i].kind {
            TokenKind::RedirectIn => if !allow_in || inf is Some {
                Err(StageError::InvalidIn)
            } else if i + 1 >= ts.len() || ts[i + 1].kind != TokenKind::Word {
                Err(StageError::MissingIn)
            } else {
                spec_stage_scan(
                    ts,
                    parsed,
                    allow_in,
                    allow_out,
                    i + 2,
                    words,
                    Some(spec_token_word(ts[i + 1], parsed)),
                    outf,
                )
            },
            TokenKind::RedirectOut => if !allow_out || outf is Some {
                Err(StageError::InvalidOut)
            } else if i + 1 >= ts.len() || ts[i + 1].kind != TokenKind::Word {
                Err(StageError::MissingOut)
            } else {
                spec_stage_scan(
                    ts,
                    parsed,
                    allow_in,
                    allow_out,
                    i + 2,
                    words,
                    inf,
                    Some(spec_token_word(ts[i + 1], parsed)),
                )
            },
            TokenKind::Pipe => Err(StageError::UnexpectedPipe),
            TokenKind::Word => if words.len() >= MAX_STAGE_TOKENS {
                Err(StageError::TooManyTokens)
            } else {
                spec_stage_scan(
                    ts,
                    parsed,
                    allow_in,
                    allow_out,
                    i + 1,
                    words.push(spec_token_word(ts[i], parsed)),
                    inf,
                    outf,
                )
            },
        }
    }
}

/// `words` joined by single spaces into at most `MAX_ARGS` bytes (`None`: too long).
pub open spec fn spec_join_seq(words: Seq<Seq<u8>>) -> Option<Seq<u8>>
    decreases words.len(),
{
    if words.len() == 0 {
        Some(Seq::empty())
    } else {
        match spec_join_seq(words.drop_last()) {
            None => None,
            Some(out) => {
                let part = words.last();
                if out.len() > 0 && out.len() >= MAX_ARGS {
                    None
                } else {
                    let sep = if out.len() > 0 {
                        seq![0x20u8]
                    } else {
                        Seq::empty()
                    };
                    if out.len() + sep.len() + part.len() > MAX_ARGS {
                        None
                    } else {
                        Some(out + sep + part)
                    }
                }
            },
        }
    }
}

/// A stage of tokens `ts`: its command, argument string and redirections.
pub open spec fn spec_parse_stage(ts: Seq<Token>, parsed: Seq<u8>, allow_in: bool, allow_out: bool) -> Result<
    (Seq<u8>, Seq<u8>, Option<Seq<u8>>, Option<Seq<u8>>),
    StageError,
> {
    match spec_stage_scan(ts, parsed, allow_in, allow_out, 0, Seq::empty(), None, None) {
        Err(e) => Err(e),
        Ok((words, inf, outf)) => if words.len() == 0 {
            Err(StageError::EmptyStage)
        } else {
            match spec_join_seq(words.subrange(1, words.len() as int)) {
                None => Err(StageError::ArgsTooLong),
                Some(a) => Ok((words[0], a, inf, outf)),
            }
        },
    }
}

/// Parses the stage `tokens[from..to]`; `<` is allowed when `allow_in`,
/// `>` when `allow_out`.
pub fn parse_stage(
    tokens: &[Token],
    from: usize,
    to: usize,
    parsed: &[u8],
    allow_in: bool,
    allow_out: bool,
) -> (r: Result<StageParse, StageError>)
    requires
        from <= to <= tokens@.len(),
        tokens_in(parsed@, tokens@),
    ensures
        match spec_parse_stage(tokens@.subrange(from as int, to as int), parsed@, allow_in, allow_out) {
            Err(e) => r matches Err(x) && x == e,
            Ok((c, a, i, o)) => r matches Ok(sp) && sp.cmd@ == c && sp.args@ == a && match i {
                Some(f) => sp.in_file matches Some(v) && v@ == f,
                None => sp.in_file is None,
            } && match o {
                Some(f) => sp.out_file matches Some(v) && v@ == f,
                None => sp.out_file is None,
            },
        },
{
    let ghost ts = tokens@.subrange(from as int, to as int);
    let mut words: Vec<Vec<u8>> = Vec::new();
    let mut in_file: Option<Vec<u8>> = None;
    let mut out_file: Option<Vec<u8>> = None;
    let mut i: usize = from;
    assert(words@.map_values(|w: Vec<u8>| w@) =~= Seq::<Seq<u8>>::empty());
    while i < to
        invariant
            from <= i <= to + 1,
            to <= tokens@.len(),
            tokens_in(parsed@, tokens@),
            ts == tokens@.subrange(from as int, to as int),
            words@.len() <= MAX_STAGE_TOKENS,
            spec_stage_scan(ts, parsed@, allow_in, allow_out, 0, Seq::empty(), None, None)
                == spec_stage_scan(
                ts,
                parsed@,
                allow_in,
                allow_out,
                i - from,
                words@.map_values(|w: Vec<u8>| w@),
                opt_view(in_file),
                opt_view(out_file),
            ),
        decreases to + 1 - i,
    {
        let ghost wv = words@.map_values(|w: Vec<u8>| w@);
        let t = tokens[i];
        assert(ts[i - from] == t);
        match t.kind {
            TokenKind::RedirectIn => {
                if !allow_in || in_file.is_some() {
                    return Err(StageError::InvalidIn);
                }
                if i + 1 >= to || tokens[i + 1].kind != TokenKind::Word {
                    return Err(StageError::MissingIn);
                }
                assert(ts[i + 1 - from] == tokens@[i + 1]);
                in_file = Some(token_word(tokens[i + 1], parsed));
                i = i + 2;
            },
            TokenKind::RedirectOut => {
                if !allow_out || out_file.is_some() {
                    return Err(StageError::InvalidOut);
                }
                if i + 1 >= to || tokens[i + 1].kind != TokenKind::Word {
                    return Err(StageError::MissingOut);
                }
                assert(ts[i + 1 - from] == tokens@[i + 1]);
                out_file = Some(token_word(tokens[i + 1], parsed));
                i = i + 2;
            },
            TokenKind::Pipe => {
                return Err(StageError::UnexpectedPipe);
            },
            TokenKind::Word => {
                if words.len() >= MAX_STAGE_TOKENS {
                    return Err(StageError::TooManyTokens);
                }
                let w = token_word(t, parsed);
                words.push(w);
                assert(words@.map_values(|w: Vec<u8>| w@) =~= wv.push(spec_token_word(t, parsed@)));
                i = i + 1;
            },
        }
    }
    let ghost wv = words@.map_values(|w: Vec<u8>| w@);
    let ghost inf_v = opt_view(in_file);
    let ghost outf_v = opt_view(out_file);
    assert(spec_stage_scan(ts, parsed@, allow_in, allow_out, 0, Seq::empty(), None, None) == Ok::<
        (Seq<Seq<u8>>, Option<Seq<u8>>, Option<Seq<u8>>),
        StageError,
    >((wv, inf_v, outf_v)));
    if words.len() == 0 {
        return Err(StageError::EmptyStage);
    }
    let nw = words.len();
    let mut args: Vec<u8> = Vec::new();
    let mut j: usize = 1;
    assert(wv.subrange(1, 1) =~= Seq::<Seq<u8>>::empty());
    while j < nw
        invariant
            1 <= j <= nw,
            nw == words@.len(),
            wv == words@.map_values(|w: Vec<u8>| w@),
            ts == tokens@.subrange(from as int, to as int),
            spec_stage_scan(ts, parsed@, allow_in, allow_out, 0, Seq::empty(), None, None) == Ok::<
                (Seq<Seq<u8>>, Option<Seq<u8>>, Option<Seq<u8>>),
                StageError,
            >((wv, inf_v, outf_v)),
            inf_v == opt_view(in_file),
            outf_v == opt_view(out_file),
            args@.len() <= MAX_ARGS,
            spec_join_seq(wv.subrange(1, j as int)) == Some(args@),
        decreases nw - j,
    {
        let ghost sub = wv.subrange(1, j + 1);
        proof {
            assert(sub.drop_last() =~= wv.subrange(1, j as int));
            assert(sub.last() == words@[j as int]@);
        }
        let ghost before = args@;
        if args.len() > 0 {
            if args.len() >= MAX_ARGS {
                proof {
                    assert(spec_join_seq(sub) is None);
                    lemma_join_seq_none_extends(wv, j as int + 1, nw as int);
                }
                return Err(StageError::ArgsTooLong);
            }
            args.push(0x20);
        }
        if words[j].len() > MAX_ARGS - args.len() {
            proof {
                assert(spec_join_seq(sub) is None);
                lemma_join_seq_none_extends(wv, j as int + 1, nw as int);
            }
            return Err(StageError::ArgsTooLong);
        }
        append_bytes(&mut args, words[j].as_slice());
        proof {
            if before.len() > 0 {
                assert(args@ =~= before + seq![0x20u8] + words@[j as int]@);
            } else {
                assert(args@ =~= before + Seq::<u8>::empty() + words@[j as int]@);
            }
        }
        j = j + 1;
    }
    let cmd = copy_range(words[0].as_slice(), 0, words[0].len());
    assert(words@[0]@.subrange(0, words@[0]@.len() as int) =~= words@[0]@);
    Ok(StageParse { cmd, args, in_file, out_file })
}

proof fn lemma_join_seq_none_extends(ws: Seq<Seq<u8>>, i: int, to: int)
    requires
        1 <= i <= to <= ws.len(),
        spec_join_seq(ws.subrange(1, i)) is None,
    ensures
        spec_join_seq(ws.subrange(1, to)) is None,
    decreases to - i,
{
    if i < to {
        let s = ws.subrange(1, i + 1);
        assert(s.drop_last() =~= ws.subrange(1, i));
        lemma_join_seq_none_extends(ws, i + 1, to);
    }
}

/// Why a line's stages could not be told apart.
#[derive(Clone, Copy, Debug, PartialEq, Eq, Structural)]
pub enum SplitError {
    TooManyStages,
    EmptyStage,
}

/// The stages of `tokens[i..]` (split at `|`), after `stages`; a stage
/// started at `start`.
pub open spec fn spec_split_from(tokens: Seq<Token>, i: int, start: int, stages: Seq<(int, int)>) -> Result<
    Seq<(int, int)>,
    SplitError,
>
    decreases tokens.len() + 1 - i,
{
    if i < 0 || i > tokens.len() {
        Ok(stages)
    } else if i == tokens.len() || tokens[i].kind == TokenKind::Pipe {
        if stages.len() >= MAX_PIPE_STAGES {
            Err(SplitError::TooManyStages)
        } else if start == i {
            Err(SplitError::EmptyStage)
        } else {
            spec_split_from(tokens, i + 1, i + 1, stages.push((start, i)))
        }
    } else {
        spec_split_from(tokens, i + 1, start, stages)
    }
}

/// The `[start, end)` token ranges of the stages of `tokens`.
pub open spec fn spec_split_stages(tokens: Seq<Token>) -> Result<Seq<(int, int)>, SplitError> {
    spec_split_from(tokens, 0, 0, Seq::empty())
}

/// Splits a line's tokens into pipeline stages.
pub fn split_stages(tokens: &[Token]) -> (r: Result<Vec<(usize, usize)>, SplitError>)
    requires
        tokens@.len() < usize::MAX,
    ensures
        match spec_split_stages(tokens@) {
            Err(e) => r matches Err(x) && x == e,
            Ok(s) => r matches Ok(v) && v@.len() == s.len() && forall|k: int|
                0 <= k < s.len() ==> (#[trigger] v@[k]).0 == s[k].0 && v@[k].1 == s[k].1,
        },
        r matches Ok(v) ==> v@.len() <= MAX_PIPE_STAGES && forall|k: int|
            0 <= k < v@.len() ==> (#[trigger] v@[k]).0 < v@[k].1 <= tokens@.len(),
{
    let n = tokens.len();
    let mut stages: Vec<(usize, usize)> = Vec::new();
    let mut start: usize = 0;
    let mut i: usize = 0;
    assert(stages@.map_values(|p: (usize, usize)| (p.0 as int, p.1 as int)) =~= Seq::<(int, int)>::empty());
    while i <= n
        invariant
            i <= n + 1,
            n == tokens@.len(),
            n < usize::MAX,
            start <= i,
            stages@.len() <= MAX_PIPE_STAGES,
            forall|k: int| 0 <= k < stages@.len() ==> (#[trigger] stages@[k]).0 < stages@[k].1 <= n,
            spec_split_stages(tokens@) == spec_split_from(
                tokens@,
                i as int,
                start as int,
                stages@.map_values(|p: (usize, usize)| (p.0 as int, p.1 as int)),
            ),
        decreases n + 1 - i,
    {
        let is_end = i == n;
        let is_pipe = !is_end && tokens[i].kind == TokenKind::Pipe;
        if is_end || is_pipe {
            if stages.len() >= MAX_PIPE_STAGES {
                return Err(SplitError::TooManyStages);
            }
            if start == i {
                return Err(SplitError::EmptyStage);
            }
            let ghost before = stages@;
            stages.push((start, i));
            assert(stages@.map_values(|p: (usize, usize)| (p.0 as int, p.1 as int)) =~= before.map_values(
                |p: (usize, usize)| (p.0 as int, p.1 as int),
            ).push((start as int, i as int)));
            start = i + 1;
        }
        i = i + 1;
    }
    proof {
        let m = stages@.map_values(|p: (usize, usize)| (p.0 as int, p.1 as int));
        assert(spec_split_stages(tokens@) == Ok::<Seq<(int, int)>, SplitError>(m));
        assert forall|k: int| 0 <= k < m.len() implies (#[trigger] stages@[k]).0 == m[k].0
            && stages@[k].1 == m[k].1 by {}
    }
    Ok(stages)
}

} // verus!
