//! Variable expansion and tokenizing of shell command lines.
//!
//! Tokenizing follows the shell's quoting rules: `'...'` keeps its text
//! literally, `"..."` keeps its text but for `\` escapes, `\` outside quotes
//! escapes the next byte, blanks (space, tab) separate words, and `|`, `<`,
//! `>` are operators of their own.
use vstd::prelude::*;
use vstd::utf8::valid_utf8;
use crate::bytes::{copy_range, append_bytes, is_valid_utf8};
use super::envvars::{EnvTable, get_env, spec_get_env};

verus! {

/// Longest expanded line.
pub const MAX_EXPANDED: usize = 512;
/// Longest tokenized text.
pub const MAX_PARSED_LINE: usize = 512;
/// Most tokens on one line.
pub const MAX_TOKENS: usize = 64;
/// Longest argument string handed to a program.
pub const MAX_ARGS: usize = 191;

pub open spec fn is_var_byte(b: u8) -> bool {
    (48 <= b && b <= 57) || (65 <= b && b <= 90) || (97 <= b && b <= 122) || b == 95
}

/// The end of the variable name that starts at `i`.
pub open spec fn var_end(s: Seq<u8>, i: int) -> int
    decreases s.len() - i,
{
    if 0 <= i < s.len() && is_var_byte(s[i]) {
        var_end(s, i + 1)
    } else {
        i
    }
}

/// `out` followed by as much of `v` as fits in `cap` bytes.
pub open spec fn push_capped(out: Seq<u8>, v: Seq<u8>, cap: int) -> Seq<u8> {
    if out.len() + v.len() <= cap {
        out + v
    } else if out.len() <= cap {
        out + v.subrange(0, cap - out.len())
    } else {
        out
    }
}

/// Expanding `$NAME` references in `s[i..]` into `out` (at most `cap` bytes):
/// a `$` not followed by a name stays, a name is replaced by its value (or
/// nothing when unset).
pub open spec fn spec_expand(env: Seq<(Seq<u8>, Seq<u8>)>, s: Seq<u8>, i: int, out: Seq<u8>, cap: int) -> Seq<u8>
    decreases s.len() - i,
{
    if i < 0 || i >= s.len() || out.len() >= cap {
        out
    } else if s[i] == 0x24 {
        let e = var_end(s, i + 1);
        if e <= i || e > s.len() {
            out
        } else if e == i + 1 {
            spec_expand(env, s, i + 1, out.push(0x24u8), cap)
        } else {
            match spec_get_env(env, s.subrange(i + 1, e)) {
                Some(v) => spec_expand(env, s, e, push_capped(out, v, cap), cap),
                None => spec_expand(env, s, e, out, cap),
            }
        }
    } else {
        spec_expand(env, s, i + 1, out.push(s[i]), cap)
    }
}

proof fn lemma_var_end_bounds(s: Seq<u8>, i: int)
    requires
        0 <= i <= s.len(),
    ensures
        i <= var_end(s, i) <= s.len(),
    decreases s.len() - i,
{
    if i < s.len() && is_var_byte(s[i]) {
        lemma_var_end_bounds(s, i + 1);
    }
}

/// A byte that may appear in a variable name: an ASCII letter, digit or `_`.
pub open spec fn is_name_byte(b: u8) -> bool {
    ||| 0x30 <= b <= 0x39
    ||| 0x41 <= b <= 0x5a
    ||| 0x61 <= b <= 0x7a
    ||| b == 0x5f
}

/// Text without `$` is copied as it is.
proof fn lemma_expand_plain(env: Seq<(Seq<u8>, Seq<u8>)>, s: Seq<u8>, i: int, k: int, out: Seq<u8>, cap: int)
    requires
        0 <= i <= k <= s.len(),
        forall|j: int| i <= j < k ==> #[trigger] s[j] != 0x24,
        out.len() + (k - i) <= cap,
    ensures
        spec_expand(env, s, i, out, cap) == spec_expand(env, s, k, out + s.subrange(i, k), cap),
    decreases k - i,
{
    if i == k {
        assert(out + s.subrange(i, k) =~= out);
    } else {
        lemma_expand_plain(env, s, i + 1, k, out.push(s[i]), cap);
        assert(out.push(s[i]) + s.subrange(i + 1, k) =~= out + s.subrange(i, k));
    }
}

/// A name runs over every name byte from `i` on.
proof fn lemma_var_end_run(s: Seq<u8>, i: int, e: int)
    requires
        0 <= i <= e <= s.len(),
        forall|j: int| i <= j < e ==> is_name_byte(#[trigger] s[j]),
        e == s.len() || !is_name_byte(s[e]),
    ensures
        var_end(s, i) == e,
    decreases e - i,
{
    if i < e {
        lemma_var_end_run(s, i + 1, e);
    }
}

/// `$NAME` stands for the whole run of ASCII letters, digits and `_` after
/// the `$`, and expands to the value of `NAME` (nothing when it is unset);
/// the text around it, free of `$`, is kept as it is. So with `MY_VAR=/x`,
/// `echo $MY_VAR` expands to `echo /x`, whatever `MY` is.
pub proof fn lemma_expand_name(
    env: Seq<(Seq<u8>, Seq<u8>)>,
    p: Seq<u8>,
    name: Seq<u8>,
    q: Seq<u8>,
    cap: int,
)
    requires
        name.len() >= 1,
        forall|j: int| 0 <= j < name.len() ==> is_name_byte(#[trigger] name[j]),
        q.len() == 0 || !is_name_byte(q[0]),
        forall|j: int| 0 <= j < p.len() ==> #[trigger] p[j] != 0x24,
        forall|j: int| 0 <= j < q.len() ==> #[trigger] q[j] != 0x24,
        p.len() + q.len() + match spec_get_env(env, name) {
            Some(v) => v.len() as int,
            None => 0int,
        } <= cap,
    ensures
        spec_expand(env, p + seq![0x24u8] + name + q, 0, Seq::empty(), cap) == p + match spec_get_env(
            env,
            name,
        ) {
            Some(v) => v,
            None => Seq::empty(),
        } + q,
{
    let s = p + seq![0x24u8] + name + q;
    let k = p.len() as int;
    let e = k + 1 + name.len();
    let val = match spec_get_env(env, name) {
        Some(v) => v,
        None => Seq::<u8>::empty(),
    };
    assert forall|j: int| 0 <= j < k implies #[trigger] s[j] != 0x24 by {
        assert(s[j] == p[j]);
    }
    lemma_expand_plain(env, s, 0, k, Seq::empty(), cap);
    assert(Seq::<u8>::empty() + s.subrange(0, k) =~= p);
    assert(s[k] == 0x24);
    assert forall|j: int| k + 1 <= j < e implies is_name_byte(#[trigger] s[j]) by {
        assert(s[j] == name[j - k - 1]);
    }
    if e < s.len() {
        assert(s[e] == q[0]);
    }
    lemma_var_end_run(s, k + 1, e);
    assert(s.subrange(k + 1, e) =~= name);
    let out = p + val;
    match spec_get_env(env, name) {
        Some(v) => {
            assert(push_capped(p, v, cap) == out);
        },
        None => {
            assert(p + Seq::<u8>::empty() =~= p);
        },
    }
    assert forall|j: int| e <= j < s.len() implies #[trigger] s[j] != 0x24 by {
        assert(s[j] == q[j - e]);
    }
    lemma_expand_plain(env, s, e, s.len() as int, out, cap);
    assert(s.subrange(e, s.len() as int) =~= q);
    assert(spec_expand(env, s, s.len() as int, out + q, cap) == out + q);
}

/// Expands `$NAME` references of `line` into at most `cap` bytes.
pub fn expand_line(env: &EnvTable, line: &[u8], cap: usize) -> (out: Vec<u8>)
    requires
        env.wf(),
    ensures
        out@ == spec_expand(env@, line@, 0, Seq::empty(), cap as int),
        out@.len() <= cap,
{
    let n = line.len();
    let mut i: usize = 0;
    let mut out: Vec<u8> = Vec::new();
    while i < n && out.len() < cap
        invariant
            i <= n,
            n == line@.len(),
            env.wf(),
            out@.len() <= cap,
            spec_expand(env@, line@, 0, Seq::empty(), cap as int) == spec_expand(
                env@,
                line@,
                i as int,
                out@,
                cap as int,
            ),
        decreases n - i,
    {
        if line[i] == 0x24 {
            i = i + 1;
            let start = i;
            proof {
                lemma_var_end_bounds(line@, start as int);
            }
            while i < n && ((48 <= line[i] && line[i] <= 57) || (65 <= line[i] && line[i] <= 90)
                || (97 <= line[i] && line[i] <= 122) || line[i] == 95)
                invariant
                    start <= i <= n,
                    n == line@.len(),
                    var_end(line@, start as int) == var_end(line@, i as int),
                decreases n - i,
            {
                i = i + 1;
            }
            if start == i {
                out.push(0x24);
            } else {
                let name = copy_range(line, start, i);
                match get_env(env, name.as_slice()) {
                    Some(v) => {
                        let ghost before = out@;
                        let mut j: usize = 0;
                        while j < v.len()
                            invariant
                                j <= v@.len(),
                                before.len() <= cap,
                                out@ == push_capped(before, v@.subrange(0, j as int), cap as int),
                                out@.len() <= cap,
                            decreases v@.len() - j,
                        {
                            if out.len() < cap {
                                out.push(v[j]);
                            }
                            j = j + 1;
                            proof {
                                let pj = v@.subrange(0, j as int);
                                let pj1 = v@.subrange(0, j - 1);
                                assert(pj =~= pj1.push(v@[j - 1]));
                                if before.len() + pj.len() <= cap {
                                    assert(out@ =~= before + pj);
                                } else {
                                    assert(pj.subrange(0, cap - before.len()) =~= pj1.subrange(
                                        0,
                                        cap - before.len(),
                                    ));
                                }
                            }
                        }
                        proof {
                            assert(v@.subrange(0, v@.len() as int) =~= v@);
                        }
                    },
                    None => {},
                }
            }
        } else {
            out.push(line[i]);
            i = i + 1;
        }
    }
    out
}

#[derive(Clone, Copy, Debug, PartialEq, Eq, Structural)]
pub enum TokenKind {
    Word,
    Pipe,
    RedirectIn,
    RedirectOut,
}

/// A token: an operator, or a word at `parsed[start..start + len]`.
#[derive(Clone, Copy, Debug, PartialEq, Eq, Structural)]
pub struct Token {
    pub kind: TokenKind,
    pub start: usize,
    pub len: usize,
}

/// Why a line could not be tokenized.
#[derive(Clone, Copy, Debug, PartialEq, Eq, Structural)]
pub enum TokenError {
    LineTooLong,
    TooManyTokens,
    TrailingEscape,
    UnclosedQuote,
}

pub open spec fn spec_token_error_message(e: TokenError) -> &'static str {
    match e {
        TokenError::LineTooLong => "line too long",
        TokenError::TooManyTokens => "too many tokens",
        TokenError::TrailingEscape => "trailing escape",
        TokenError::UnclosedQuote => "unclosed quote",
    }
}

impl TokenError {
    /// The text printed after `parse error: `.
    pub fn message(&self) -> (r: &'static str)
        ensures
            r == spec_token_error_message(*self),
    {
        match self {
            TokenError::LineTooLong => "line too long",
            TokenError::TooManyTokens => "too many tokens",
            TokenError::TrailingEscape => "trailing escape",
            TokenError::UnclosedQuote => "unclosed quote",
        }
    }
}

/// The tokenizer's state between bytes.
pub struct LexState {
    pub parsed: Seq<u8>,
    pub tokens: Seq<Token>,
    pub start: int,
    pub in_token: bool,
    pub in_single: bool,
    pub in_double: bool,
    pub escape: bool,
}

pub open spec fn lex_init() -> LexState {
    LexState {
        parsed: Seq::empty(),
        tokens: Seq::empty(),
        start: 0,
        in_token: false,
        in_single: false,
        in_double: false,
        escape: false,
    }
}

pub open spec fn lex_push_char(st: LexState, b: u8) -> Result<LexState, TokenError> {
    if st.parsed.len() >= MAX_PARSED_LINE {
        Err(TokenError::LineTooLong)
    } else {
        Ok(LexState { parsed: st.parsed.push(b), ..st })
    }
}

pub open spec fn lex_push_token(st: LexState, t: Token) -> Result<LexState, TokenError> {
    if st.tokens.len() >= MAX_TOKENS {
        Err(TokenError::TooManyTokens)
    } else {
        Ok(LexState { tokens: st.tokens.push(t), ..st })
    }
}

/// The word that ends at the current position.
pub open spec fn lex_word(st: LexState) -> Token {
    Token {
        kind: TokenKind::Word,
        start: st.start as usize,
        len: (st.parsed.len() - st.start) as usize,
    }
}

/// Starts a word at the current position unless one is open.
pub open spec fn lex_open(st: LexState) -> LexState {
    if st.in_token {
        st
    } else {
        LexState { start: st.parsed.len() as int, in_token: true, ..st }
    }
}

/// Closes the open word, if any.
pub open spec fn lex_close(st: LexState) -> Result<LexState, TokenError> {
    if st.in_token {
        match lex_push_token(st, lex_word(st)) {
            Ok(s) => Ok(LexState { in_token: false, ..s }),
            Err(e) => Err(e),
        }
    } else {
        Ok(st)
    }
}

/// The tokenizer's step on byte `b`.
pub open spec fn lex_step(st: LexState, b: u8) -> Result<LexState, TokenError> {
    if st.escape {
        match lex_push_char(st, b) {
            Ok(s) => Ok(LexState { in_token: true, escape: false, ..s }),
            Err(e) => Err(e),
        }
    } else if st.in_single {
        if b == 0x27 {
            Ok(LexState { in_single: false, ..st })
        } else {
            match lex_push_char(st, b) {
                Ok(s) => Ok(LexState { in_token: true, ..s }),
                Err(e) => Err(e),
            }
        }
    } else if st.in_double {
        if b == 0x22 {
            Ok(LexState { in_double: false, ..st })
        } else if b == 0x5c {
            Ok(LexState { escape: true, ..st })
        } else {
            match lex_push_char(st, b) {
                Ok(s) => Ok(LexState { in_token: true, ..s }),
                Err(e) => Err(e),
            }
        }
    } else if b == 0x20 || b == 0x09 {
        lex_close(st)
    } else if b == 0x27 {
        Ok(LexState { in_single: true, ..lex_open(st) })
    } else if b == 0x22 {
        Ok(LexState { in_double: true, ..lex_open(st) })
    } else if b == 0x5c {
        Ok(LexState { escape: true, ..lex_open(st) })
    } else if b == 0x7c || b == 0x3c || b == 0x3e {
        match lex_close(st) {
            Ok(s) => {
                let kind = if b == 0x7c {
                    TokenKind::Pipe
                } else if b == 0x3c {
                    TokenKind::RedirectIn
                } else {
                    TokenKind::RedirectOut
                };
                lex_push_token(s, Token { kind, start: 0, len: 0 })
            },
            Err(e) => Err(e),
        }
    } else {
        lex_push_char(lex_open(st), b)
    }
}

/// Runs the tokenizer over `line[i..]`.
pub open spec fn lex_run(line: Seq<u8>, i: int, st: LexState) -> Result<LexState, TokenError>
    decreases line.len() - i,
{
    if i < 0 || i >= line.len() {
        Ok(st)
    } else {
        match lex_step(st, line[i]) {
            Ok(s) => lex_run(line, i + 1, s),
            Err(e) => Err(e),
        }
    }
}

/// The tokens of `line` and the text their words refer to.
pub open spec fn spec_tokenize(line: Seq<u8>) -> Result<(Seq<u8>, Seq<Token>), TokenError> {
    match lex_run(line, 0, lex_init()) {
        Err(e) => Err(e),
        Ok(st) => if st.escape {
            Err(TokenError::TrailingEscape)
        } else if st.in_single || st.in_double {
            Err(TokenError::UnclosedQuote)
        } else {
            match lex_close(st) {
                Ok(s) => Ok((s.parsed, s.tokens)),
                Err(e) => Err(e),
            }
        },
    }
}

/// Every word token lies inside the text, and an open word starts inside it.
pub open spec fn tokens_in(parsed: Seq<u8>, tokens: Seq<Token>) -> bool {
    forall|k: int|
        0 <= k < tokens.len() ==> (#[trigger] tokens[k]).start + tokens[k].len <= parsed.len()
}

pub open spec fn lex_wf(st: LexState) -> bool {
    &&& tokens_in(st.parsed, st.tokens)
    &&& 0 <= st.start <= st.parsed.len()
    &&& st.parsed.len() <= MAX_PARSED_LINE
    &&& st.tokens.len() <= MAX_TOKENS
}

proof fn lemma_push_token_wf(st: LexState, t: Token)
    requires
        lex_wf(st),
        t.start + t.len <= st.parsed.len(),
    ensures
        lex_push_token(st, t) matches Ok(s) ==> lex_wf(s),
{
    if st.tokens.len() < MAX_TOKENS {
        let s = LexState { tokens: st.tokens.push(t), ..st };
        assert forall|k: int| 0 <= k < s.tokens.len() implies (#[trigger] s.tokens[k]).start
            + s.tokens[k].len <= s.parsed.len() by {
            if k < st.tokens.len() {
                assert(s.tokens[k] == st.tokens[k]);
            }
        }
    }
}

proof fn lemma_push_char_wf(st: LexState, b: u8)
    requires
        lex_wf(st),
    ensures
        lex_push_char(st, b) matches Ok(s) ==> lex_wf(s) && s.parsed.len() == st.parsed.len() + 1,
{
    if st.parsed.len() < MAX_PARSED_LINE {
        let s = LexState { parsed: st.parsed.push(b), ..st };
        assert forall|k: int| 0 <= k < s.tokens.len() implies (#[trigger] s.tokens[k]).start
            + s.tokens[k].len <= s.parsed.len() by {
            assert(s.tokens[k] == st.tokens[k]);
        }
    }
}

proof fn lemma_close_wf(st: LexState)
    requires
        lex_wf(st),
    ensures
        lex_close(st) matches Ok(s) ==> lex_wf(s),
{
    if st.in_token {
        lemma_push_token_wf(st, lex_word(st));
    }
}

proof fn lemma_step_wf(st: LexState, b: u8)
    requires
        lex_wf(st),
    ensures
        lex_step(st, b) matches Ok(s) ==> lex_wf(s),
{
    lemma_push_char_wf(st, b);
    lemma_close_wf(st);
    lemma_push_char_wf(lex_open(st), b);
    if !st.escape && !st.in_single && !st.in_double && (b == 0x7c || b == 0x3c || b == 0x3e) {
        if let Ok(s) = lex_close(st) {
            lemma_push_token_wf(s, Token { kind: TokenKind::Pipe, start: 0, len: 0 });
            lemma_push_token_wf(s, Token { kind: TokenKind::RedirectIn, start: 0, len: 0 });
            lemma_push_token_wf(s, Token { kind: TokenKind::RedirectOut, start: 0, len: 0 });
        }
    }
}

/// Where the words of `ts` end: the end of the last word token (0 when
/// there is none).
pub open spec fn tile_end(ts: Seq<Token>) -> int
    decreases ts.len(),
{
    if ts.len() == 0 {
        0
    } else if ts.last().kind == TokenKind::Word {
        ts.last().start + ts.last().len
    } else {
        tile_end(ts.drop_last())
    }
}

/// Each word token of `ts` starts where the words before it end.
pub open spec fn tiles(ts: Seq<Token>) -> bool
    decreases ts.len(),
{
    if ts.len() == 0 {
        true
    } else {
        tiles(ts.drop_last()) && (ts.last().kind == TokenKind::Word ==> ts.last().start
            == tile_end(ts.drop_last()))
    }
}

/// Between bytes: the words so far tile the text read so far, apart from
/// the open word, which starts where they end; quotes and escapes only
/// occur inside a word.
pub open spec fn lex_tiles(st: LexState) -> bool {
    &&& tiles(st.tokens)
    &&& 0 <= st.start <= st.parsed.len()
    &&& st.parsed.len() <= MAX_PARSED_LINE
    &&& st.in_token ==> st.start == tile_end(st.tokens)
    &&& !st.in_token ==> tile_end(st.tokens) == st.parsed.len()
    &&& (st.escape || st.in_single || st.in_double) ==> st.in_token
}

proof fn lemma_push_tiles(ts: Seq<Token>, t: Token)
    requires
        tiles(ts),
        t.kind == TokenKind::Word ==> t.start == tile_end(ts),
    ensures
        tiles(ts.push(t)),
        tile_end(ts.push(t)) == if t.kind == TokenKind::Word {
            t.start + t.len
        } else {
            tile_end(ts)
        },
{
    assert(ts.push(t).drop_last() =~= ts);
}

proof fn lemma_close_tiles(st: LexState)
    requires
        lex_tiles(st),
        !st.escape && !st.in_single && !st.in_double,
    ensures
        lex_close(st) matches Ok(s) ==> lex_tiles(s) && !s.in_token && s.parsed == st.parsed,
{
    if st.in_token && st.tokens.len() < MAX_TOKENS {
        lemma_push_tiles(st.tokens, lex_word(st));
    }
}

proof fn lemma_step_tiles(st: LexState, b: u8)
    requires
        lex_tiles(st),
    ensures
        lex_step(st, b) matches Ok(s) ==> lex_tiles(s),
{
    if !st.escape && !st.in_single && !st.in_double {
        lemma_close_tiles(st);
    }
    if !st.escape && !st.in_single && !st.in_double && (b == 0x7c || b == 0x3c || b == 0x3e) {
        if let Ok(s) = lex_close(st) {
            if s.tokens.len() < MAX_TOKENS {
                let kind = if b == 0x7c {
                    TokenKind::Pipe
                } else if b == 0x3c {
                    TokenKind::RedirectIn
                } else {
                    TokenKind::RedirectOut
                };
                lemma_push_tiles(s.tokens, Token { kind, start: 0, len: 0 });
            }
        }
    }
}

proof fn lemma_run_tiles(line: Seq<u8>, i: int, st: LexState)
    requires
        lex_tiles(st),
    ensures
        lex_run(line, i, st) matches Ok(s) ==> lex_tiles(s),
    decreases line.len() - i,
{
    if 0 <= i < line.len() {
        lemma_step_tiles(st, line[i]);
        if let Ok(s) = lex_step(st, line[i]) {
            lemma_run_tiles(line, i + 1, s);
        }
    }
}

/// The words of a tokenized line tile its text: the first word starts at
/// its beginning, each word starts where the one before ends, and the last
/// ends at its end (operators take no text).
pub proof fn lemma_tokens_tile(line: Seq<u8>)
    ensures
        spec_tokenize(line) matches Ok((p, t)) ==> tiles(t) && tile_end(t) == p.len(),
{
    lemma_run_tiles(line, 0, lex_init());
    if let Ok(st) = lex_run(line, 0, lex_init()) {
        if !st.escape && !st.in_single && !st.in_double {
            lemma_close_tiles(st);
        }
    }
}

/// Running over `line[k..]` is running over its part before `i`, then on
/// from `i`.
proof fn lemma_run_split(line: Seq<u8>, k: int, i: int, st: LexState)
    requires
        0 <= k <= i <= line.len(),
    ensures
        lex_run(line, k, st) == match lex_run(line.subrange(0, i), k, st) {
            Ok(t) => lex_run(line, i, t),
            Err(e) => Err(e),
        },
    decreases i - k,
{
    if k < i {
        let pre = line.subrange(0, i);
        assert(pre[k] == line[k]);
        if let Ok(s1) = lex_step(st, line[k]) {
            lemma_run_split(line, k + 1, i, s1);
        }
    }
}

/// Running from `k` on reads only the bytes from `k` on.
proof fn lemma_run_same_suffix(a: Seq<u8>, b: Seq<u8>, k: int, st: LexState)
    requires
        0 <= k,
        a.len() == b.len(),
        forall|j: int| k <= j < a.len() ==> a[j] == b[j],
    ensures
        lex_run(a, k, st) == lex_run(b, k, st),
    decreases a.len() - k,
{
    if k < a.len() {
        assert(a[k] == b[k]);
        if let Ok(s1) = lex_step(st, a[k]) {
            lemma_run_same_suffix(a, b, k + 1, s1);
        }
    }
}

/// Outside quotes and escapes a tab separates words exactly as a space
/// does: when the bytes before position `i` leave the tokenizer outside
/// quotes and escapes, tokenizing the line with the tab at `i` gives what
/// tokenizing it with a space there gives (so `echo<TAB>a` gives the words
/// `echo` and `a`). Applied at each such tab in turn, a line tokenizes as
/// the line with all its unquoted tabs made spaces.
pub proof fn lemma_unquoted_tab_is_blank(line: Seq<u8>, i: int)
    requires
        0 <= i < line.len(),
        line[i] == 0x09,
        (lex_run(line.subrange(0, i), 0, lex_init()) matches Ok(st) && !st.escape && !st.in_single
            && !st.in_double),
    ensures
        spec_tokenize(line) == spec_tokenize(line.update(i, 0x20u8)),
{
    let line2 = line.update(i, 0x20u8);
    assert(line2.subrange(0, i) =~= line.subrange(0, i));
    lemma_run_split(line, 0, i, lex_init());
    lemma_run_split(line2, 0, i, lex_init());
    let st = lex_run(line.subrange(0, i), 0, lex_init()).unwrap();
    assert(lex_step(st, 0x09u8) == lex_step(st, 0x20u8));
    if let Ok(s1) = lex_step(st, 0x09u8) {
        lemma_run_same_suffix(line, line2, i + 1, s1);
    }
    assert(lex_run(line, i, st) == lex_run(line2, i, st));
}

/// `line` with every tab made a space.
pub open spec fn tabs_to_spaces(line: Seq<u8>) -> Seq<u8> {
    Seq::new(line.len(), |j: int| if line[j] == 0x09 { 0x20u8 } else { line[j] })
}

proof fn lemma_run_tabs_to_spaces(line: Seq<u8>, k: int, st: LexState)
    requires
        0 <= k,
        !st.escape && !st.in_single && !st.in_double,
        forall|j: int| k <= j < line.len() ==> #[trigger] line[j] != 0x27 && line[j] != 0x22
            && line[j] != 0x5c,
    ensures
        lex_run(line, k, st) == lex_run(tabs_to_spaces(line), k, st),
    decreases line.len() - k,
{
    let line2 = tabs_to_spaces(line);
    if k < line.len() {
        let b = line[k];
        assert(b != 0x27 && b != 0x22 && b != 0x5c);
        assert(lex_step(st, b) == lex_step(st, line2[k]));
        if let Ok(s1) = lex_step(st, b) {
            lemma_run_tabs_to_spaces(line, k + 1, s1);
        }
    }
}

/// On a line without quotes or backslashes, tabs and spaces separate words
/// alike: the line tokenizes exactly as the line with every tab made a space.
pub proof fn lemma_tabs_are_blanks(line: Seq<u8>)
    requires
        forall|j: int| 0 <= j < line.len() ==> #[trigger] line[j] != 0x27 && line[j] != 0x22
            && line[j] != 0x5c,
    ensures
        spec_tokenize(line) == spec_tokenize(tabs_to_spaces(line)),
{
    lemma_run_tabs_to_spaces(line, 0, lex_init());
}

/// Splits `line` into words and operators; words are kept, unquoted and
/// unescaped, in the returned text.
pub fn tokenize_command(line: &[u8]) -> (r: Result<(Vec<u8>, Vec<Token>), TokenError>)
    ensures
        match spec_tokenize(line@) {
            Err(e) => r matches Err(x) && x == e,
            Ok((p, t)) => r matches Ok((rp, rt)) && rp@ == p && rt@ == t && tokens_in(p, t)
                && t.len() <= MAX_TOKENS,
        },
{
    let n = line.len();
    let mut parsed: Vec<u8> = Vec::new();
    let mut tokens: Vec<Token> = Vec::new();
    let mut current_start: usize = 0;
    let mut in_token = false;
    let mut in_single = false;
    let mut in_double = false;
    let mut escape = false;
    let mut i: usize = 0;
    while i < n
        invariant
            i <= n,
            n == line@.len(),
            lex_wf(
                LexState {
                    parsed: parsed@,
                    tokens: tokens@,
                    start: current_start as int,
                    in_token,
                    in_single,
                    in_double,
                    escape,
                },
            ),
            lex_run(line@, 0, lex_init()) == lex_run(
                line@,
                i as int,
                LexState {
                    parsed: parsed@,
                    tokens: tokens@,
                    start: current_start as int,
                    in_token,
                    in_single,
                    in_double,
                    escape,
                },
            ),
        decreases n - i,
    {
        let ghost st = LexState {
            parsed: parsed@,
            tokens: tokens@,
            start: current_start as int,
            in_token,
            in_single,
            in_double,
            escape,
        };
        proof {
            lemma_step_wf(st, line@[i as int]);
        }
        let b = line[i];
        if escape {
            if parsed.len() >= MAX_PARSED_LINE {
                return Err(TokenError::LineTooLong);
            }
            parsed.push(b);
            in_token = true;
            escape = false;
        } else if in_single {
            if b == 0x27 {
                in_single = false;
            } else {
                if parsed.len() >= MAX_PARSED_LINE {
                    return Err(TokenError::LineTooLong);
                }
                parsed.push(b);
                in_token = true;
            }
        } else if in_double {
            if b == 0x22 {
                in_double = false;
            } else if b == 0x5c {
                escape = true;
            } else {
                if parsed.len() >= MAX_PARSED_LINE {
                    return Err(TokenError::LineTooLong);
                }
                parsed.push(b);
                in_token = true;
            }
        } else if b == 0x20 || b == 0x09 {
            if in_token {
                if tokens.len() >= MAX_TOKENS {
                    return Err(TokenError::TooManyTokens);
                }
                tokens.push(
                    Token { kind: TokenKind::Word, start: current_start, len: parsed.len() - current_start },
                );
                in_token = false;
            }
        } else if b == 0x27 || b == 0x22 || b == 0x5c {
            if !in_token {
                current_start = parsed.len();
                in_token = true;
            }
            if b == 0x27 {
                in_single = true;
            } else if b == 0x22 {
                in_double = true;
            } else {
                escape = true;
            }
        } else if b == 0x7c || b == 0x3c || b == 0x3e {
            if in_token {
                if tokens.len() >= MAX_TOKENS {
                    return Err(TokenError::TooManyTokens);
                }
                tokens.push(
                    Token { kind: TokenKind::Word, start: current_start, len: parsed.len() - current_start },
                );
                in_token = false;
            }
            let kind = if b == 0x7c {
                TokenKind::Pipe
            } else if b == 0x3c {
                TokenKind::RedirectIn
            } else {
                TokenKind::RedirectOut
            };
            if tokens.len() >= MAX_TOKENS {
                return Err(TokenError::TooManyTokens);
            }
            tokens.push(Token { kind, start: 0, len: 0 });
        } else {
            if !in_token {
                current_start = parsed.len();
                in_token = true;
            }
            if parsed.len() >= MAX_PARSED_LINE {
                return Err(TokenError::LineTooLong);
            }
            parsed.push(b);
        }
        proof {
            let st2 = LexState {
                parsed: parsed@,
                tokens: tokens@,
                start: current_start as int,
                in_token,
                in_single,
                in_double,
                escape,
            };
            assert(lex_step(st, line@[i as int]) == Ok::<LexState, TokenError>(st2));
        }
        i = i + 1;
    }
    if escape {
        return Err(TokenError::TrailingEscape);
    }
    if in_single || in_double {
        return Err(TokenError::UnclosedQuote);
    }
    if in_token {
        if tokens.len() >= MAX_TOKENS {
            return Err(TokenError::TooManyTokens);
        }
        tokens.push(Token { kind: TokenKind::Word, start: current_start, len: parsed.len() - current_start });
    }
    proof {
        let st = LexState {
            parsed: parsed@,
            tokens: tokens@,
            start: current_start as int,
            in_token,
            in_single,
            in_double,
            escape,
        };
        lemma_close_wf(st);
    }
    Ok((parsed, tokens))
}

/// The text of word token `t`: its bytes when they are valid UTF-8, else empty.
pub open spec fn spec_token_word(t: Token, parsed: Seq<u8>) -> Seq<u8> {
    let w = parsed.subrange(t.start as int, t.start + t.len);
    if valid_utf8(w) {
        w
    } else {
        Seq::empty()
    }
}

/// The text of word token `t`.
pub fn token_word(t: Token, parsed: &[u8]) -> (w: Vec<u8>)
    requires
        t.start + t.len <= parsed@.len(),
    ensures
        w@ == spec_token_word(t, parsed@),
{
    let pl = parsed.len();
    assert(t.start + t.len <= pl);
    let v = copy_range(parsed, t.start, t.start + t.len);
    if is_valid_utf8(v.as_slice()) {
        v
    } else {
        Vec::new()
    }
}

/// Joining word tokens `ts` with single spaces into at most `MAX_ARGS`
/// bytes; `None` when a token is an operator or the result is too long.
pub open spec fn spec_join_words(ts: Seq<Token>, parsed: Seq<u8>) -> Option<Seq<u8>>
    decreases ts.len(),
{
    if ts.len() == 0 {
        Some(Seq::empty())
    } else {
        match spec_join_words(ts.drop_last(), parsed) {
            None => None,
            Some(out) => {
                let t = ts.last();
                if t.kind != TokenKind::Word {
                    None
                } else {
                    let part = spec_token_word(t, parsed);
                    let sep = if out.len() > 0 {
                        seq![0x20u8]
                    } else {
                        Seq::empty()
                    };
                    if out.len() > 0 && out.len() >= MAX_ARGS {
                        None
                    } else if out.len() + sep.len() + part.len() > MAX_ARGS {
                        None
                    } else {
                        Some(out + sep + part)
                    }
                }
            },
        }
    }
}

/// Joins the words of `tokens[from..to]` with single spaces.
pub fn join_word_tokens(tokens: &[Token], from: usize, to: usize, parsed: &[u8]) -> (r: Option<Vec<u8>>)
    requires
        from <= to <= tokens@.len(),
        tokens_in(parsed@, tokens@),
    ensures
        match spec_join_words(tokens@.subrange(from as int, to as int), parsed@) {
            None => r is None,
            Some(o) => r matches Some(v) && v@ == o && o.len() <= MAX_ARGS,
        },
{
    let mut out: Vec<u8> = Vec::new();
    let mut i: usize = from;
    while i < to
        invariant
            from <= i <= to,
            to <= tokens@.len(),
            tokens_in(parsed@, tokens@),
            out@.len() <= MAX_ARGS,
            spec_join_words(tokens@.subrange(from as int, i as int), parsed@) == Some(out@),
        decreases to - i,
    {
        let ghost sub = tokens@.subrange(from as int, i as int + 1);
        proof {
            assert(sub.drop_last() =~= tokens@.subrange(from as int, i as int));
            assert(sub.last() == tokens@[i as int]);
        }
        let t = tokens[i];
        if t.kind != TokenKind::Word {
            proof {
                lemma_join_none_extends(tokens@, parsed@, from as int, i as int + 1, to as int);
            }
            return None;
        }
        assert(t.start + t.len <= parsed@.len());
        let part = token_word(t, parsed);
        if out.len() > 0 {
            if out.len() >= MAX_ARGS {
                proof {
                    lemma_join_none_extends(tokens@, parsed@, from as int, i as int + 1, to as int);
                }
                return None;
            }
            out.push(0x20);
        }
        if part.len() > MAX_ARGS - out.len() {
            proof {
                lemma_join_none_extends(tokens@, parsed@, from as int, i as int + 1, to as int);
            }
            return None;
        }
        append_bytes(&mut out, part.as_slice());
        i = i + 1;
        proof {
            let o = spec_join_words(tokens@.subrange(from as int, i - 1), parsed@).unwrap();
            if o.len() > 0 {
                assert(out@ =~= o + seq![0x20u8] + part@);
            } else {
                assert(out@ =~= o + Seq::<u8>::empty() + part@);
            }
        }
    }
    Some(out)
}

proof fn lemma_join_none_extends(ts: Seq<Token>, parsed: Seq<u8>, from: int, i: int, to: int)
    requires
        0 <= from <= i <= to <= ts.len(),
        spec_join_words(ts.subrange(from, i), parsed) is None,
    ensures
        spec_join_words(ts.subrange(from, to), parsed) is None,
    decreases to - i,
{
    if i < to {
        let s = ts.subrange(from, i + 1);
        assert(s.drop_last() =~= ts.subrange(from, i));
        lemma_join_none_extends(ts, parsed, from, i + 1, to);
    }
}

} // verus!
