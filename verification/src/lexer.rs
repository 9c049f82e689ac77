//! The tokenizer: source text to located tokens.

use crate::error::LispError;
use crate::literal::find_char;
use crate::location::{Location, Place};
use crate::text::{chars_of, has_ink, is_space, is_whitespace, len_utf8, utf8_width};
use crate::token::{
    classify, classify_chars, literals_only, Token, TokenKind, TokenType, TokenView,
};
use vstd::prelude::*;
use vstd::string::StringSliceAdditionalSpecFns;
use vstd::utf8::{encode_scalar, encode_utf8};

verus! {

/// The state of the tokenizer between two characters.
pub struct LexState {
    /// The tokens made so far.
    pub tokens: Seq<TokenView>,
    /// The text of the token being assembled.
    pub buf: Seq<char>,
    /// Whether a string literal was opened and not yet closed.
    pub in_string: bool,
    /// The line on which the token being assembled starts.
    pub line: nat,
    /// The column at which the token being assembled starts.
    pub col: nat,
}

impl LexState {
    /// The state before the first character.
    pub open spec fn start() -> LexState {
        LexState { tokens: Seq::empty(), buf: Seq::empty(), in_string: false, line: 0, col: 0 }
    }

    /// The state with the assembled text made into a token and a new token
    /// started at `line` and `col`.
    pub open spec fn flush(self, file: Seq<char>, line: nat, col: nat) -> LexState {
        LexState {
            tokens: self.tokens.push(
                TokenView {
                    loc: Place { file, line: self.line, col: self.col },
                    dat: classify(self.buf),
                },
            ),
            buf: Seq::empty(),
            in_string: false,
            line,
            col,
        }
    }

    /// The state with a token of kind `dat` added at the start of the token
    /// being assembled, and that start moved to `line` and `col`.
    pub open spec fn mark(self, file: Seq<char>, dat: TokenKind, line: nat, col: nat) -> LexState {
        LexState {
            tokens: self.tokens.push(
                TokenView { loc: Place { file, line: self.line, col: self.col }, dat },
            ),
            line,
            col,
            ..self
        }
    }

    /// The state after the character `c`, found at `line` and `col`.
    ///
    /// Inside a string literal every character joins the text, and `"` ends
    /// the literal and makes it a token. Outside, `"` starts a literal here
    /// and drops what text was pending; a space ends a pending token; `(` is a
    /// token at this position and leaves pending text as it is; `)` ends a
    /// pending token and is a token itself, at this position if a token was
    /// ended and else where the pending one would have started; any other
    /// character joins the text. Text that is all white space is never made a
    /// token.
    pub open spec fn step(self, c: char, file: Seq<char>, line: nat, col: nat) -> LexState {
        if self.in_string {
            if c == '"' {
                LexState { buf: self.buf.push(c), ..self }.flush(file, line, col + 1)
            } else {
                LexState { buf: self.buf.push(c), ..self }
            }
        } else if c == '"' {
            LexState { buf: seq![c], in_string: true, line, col, ..self }
        } else if c == ' ' {
            if has_ink(self.buf) {
                self.flush(file, line, col + 1)
            } else {
                self
            }
        } else if c == '(' {
            LexState { line, col, ..self }.mark(file, TokenKind::OpenParens, line, col + 1)
        } else if c == ')' {
            if has_ink(self.buf) {
                self.flush(file, line, col).mark(file, TokenKind::CloseParens, line, col + 1)
            } else {
                self.mark(file, TokenKind::CloseParens, line, col + 1)
            }
        } else {
            LexState { buf: self.buf.push(c), ..self }
        }
    }
}

/// The state after the characters `s[k..hi]` of line `line`, the first of
/// them at column `col`.
pub open spec fn lex_span(
    st: LexState,
    s: Seq<char>,
    k: int,
    hi: int,
    file: Seq<char>,
    line: nat,
    col: nat,
) -> LexState
    decreases hi - k,
{
    if k >= hi {
        st
    } else {
        lex_span(st.step(s[k], file, line, col), s, k + 1, hi, file, line, col + utf8_width(s[k]))
    }
}

/// The first index in `lo..hi` that holds no white space, or `hi`.
pub open spec fn trim_lo(s: Seq<char>, lo: int, hi: int) -> int
    decreases hi - lo,
{
    if lo < hi && is_space(s[lo]) {
        trim_lo(s, lo + 1, hi)
    } else {
        lo
    }
}

/// One past the last index in `lo..hi` that holds no white space, or `lo`.
pub open spec fn trim_hi(s: Seq<char>, lo: int, hi: int) -> int
    decreases hi - lo,
{
    if lo < hi && is_space(s[hi - 1]) {
        trim_hi(s, lo, hi - 1)
    } else {
        hi
    }
}

/// The state after the lines of `s` from index `from` on, the first of them
/// being line `line`. A line ends before a line feed or at the end of `s`;
/// the white space at its two ends is left out, and columns count from what
/// remains.
pub open spec fn lex_lines(st: LexState, s: Seq<char>, from: int, file: Seq<char>, line: nat) -> LexState
    decreases s.len() - from,
{
    let end = find_char(s, '\n', from);
    let lo = trim_lo(s, from, end);
    let hi = trim_hi(s, lo, end);
    let after = lex_span(st, s, lo, hi, file, line, 0);
    if from <= end < s.len() {
        lex_lines(after, s, end + 1, file, line + 1)
    } else {
        after
    }
}

/// The tokens of the source text `s` of the file named `file`.
pub open spec fn tokens_of(s: Seq<char>, file: Seq<char>) -> Seq<TokenView> {
    lex_lines(LexState::start(), s, 0, file, 0).tokens
}

proof fn lemma_step_literals(st: LexState, c: char, file: Seq<char>, line: nat, col: nat)
    requires
        literals_only(st.tokens),
    ensures
        literals_only(st.step(c, file, line, col).tokens),
{
    let next = st.step(c, file, line, col).tokens;
    assert forall|i: int| 0 <= i < next.len() implies ((#[trigger] next[i]).dat matches TokenKind::Recognizable(
        v,
    ) ==> v.is_literal()) by {
        if i < st.tokens.len() {
            assert(next[i] == st.tokens[i]);
        }
    }
}

proof fn lemma_span_literals(
    st: LexState,
    s: Seq<char>,
    k: int,
    hi: int,
    file: Seq<char>,
    line: nat,
    col: nat,
)
    requires
        literals_only(st.tokens),
    ensures
        literals_only(lex_span(st, s, k, hi, file, line, col).tokens),
    decreases hi - k,
{
    if k < hi {
        lemma_step_literals(st, s[k], file, line, col);
        lemma_span_literals(
            st.step(s[k], file, line, col),
            s,
            k + 1,
            hi,
            file,
            line,
            col + utf8_width(s[k]),
        );
    }
}

proof fn lemma_lines_literals(st: LexState, s: Seq<char>, from: int, file: Seq<char>, line: nat)
    requires
        literals_only(st.tokens),
    ensures
        literals_only(lex_lines(st, s, from, file, line).tokens),
    decreases s.len() - from,
{
    let end = find_char(s, '\n', from);
    let lo = trim_lo(s, from, end);
    let hi = trim_hi(s, lo, end);
    lemma_span_literals(st, s, lo, hi, file, line, 0);
    if from <= end < s.len() {
        lemma_lines_literals(lex_span(st, s, lo, hi, file, line, 0), s, end + 1, file, line + 1);
    }
}

/// Each literal among the tokens of a source text holds an integer, a
/// floating-point literal, a string or nil.
pub proof fn lemma_tokens_are_literals(s: Seq<char>, file: Seq<char>)
    ensures
        literals_only(tokens_of(s, file)),
{
    lemma_lines_literals(LexState::start(), s, 0, file, 0);
}

/// What the tokens `v` stand for.
pub open spec fn token_views(v: Seq<Token>) -> Seq<TokenView> {
    Seq::new(v.len(), |i: int| v[i]@)
}

/// The number of bytes that the characters `s[lo..hi]` take in UTF-8.
pub open spec fn span_width(s: Seq<char>, lo: int, hi: int) -> nat
    decreases hi - lo,
{
    if lo >= hi {
        0
    } else {
        span_width(s, lo, hi - 1) + utf8_width(s[hi - 1])
    }
}

proof fn lemma_span_width_split(s: Seq<char>, lo: int, mid: int, hi: int)
    requires
        lo <= mid <= hi,
    ensures
        span_width(s, lo, hi) == span_width(s, lo, mid) + span_width(s, mid, hi),
    decreases hi - mid,
{
    if mid < hi {
        lemma_span_width_split(s, lo, mid, hi - 1);
    }
}

proof fn lemma_encoded_width(c: char)
    ensures
        encode_scalar(c as u32).len() == utf8_width(c),
{
    vstd::utf8::char_is_scalar(c);
}

proof fn lemma_encoded_len(s: Seq<char>)
    ensures
        encode_utf8(s).len() == span_width(s, 0, s.len() as int),
    decreases s.len(),
{
    if s.len() > 0 {
        let rest = s.drop_first();
        lemma_encoded_len(rest);
        lemma_encoded_width(s[0]);
        lemma_span_width_shift(s, 1, s.len() as int);
        lemma_span_width_split(s, 0, 1, s.len() as int);
        assert(span_width(s, 0, 1) == span_width(s, 0, 0) + utf8_width(s[0]));
    }
}

proof fn lemma_span_width_shift(s: Seq<char>, lo: int, hi: int)
    requires
        1 <= lo <= hi <= s.len(),
    ensures
        span_width(s, lo, hi) == span_width(s.drop_first(), lo - 1, hi - 1),
    decreases hi - lo,
{
    if lo < hi {
        lemma_span_width_shift(s, lo, hi - 1);
    }
}

/// The tokenizer at work.
struct Lexer {
    tokens: Vec<Token>,
    buf: Vec<char>,
    in_string: bool,
    line: usize,
    col: usize,
}

impl View for Lexer {
    type V = LexState;

    closed spec fn view(&self) -> LexState {
        LexState {
            tokens: token_views(self.tokens@),
            buf: self.buf@,
            in_string: self.in_string,
            line: self.line as nat,
            col: self.col as nat,
        }
    }
}

impl Lexer {
    fn new(capacity: usize) -> (lx: Lexer)
        ensures
            lx@ == LexState::start(),
    {
        let lx = Lexer {
            tokens: Vec::with_capacity(capacity),
            buf: Vec::new(),
            in_string: false,
            line: 0,
            col: 0,
        };
        assert(lx@.tokens =~= Seq::empty());
        lx
    }

    fn buf_has_ink(&self) -> (b: bool)
        ensures
            b == has_ink(self@.buf),
    {
        let mut i: usize = 0;
        while i < self.buf.len()
            invariant
                i <= self.buf.len(),
                forall|j: int| 0 <= j < i ==> is_space(#[trigger] self.buf@[j]),
            decreases self.buf.len() - i,
        {
            if !is_whitespace(self.buf[i]) {
                return true;
            }
            i += 1;
        }
        false
    }

    fn push(&mut self, loc: Location, dat: TokenType)
        ensures
            final(self)@ == (LexState {
                tokens: old(self)@.tokens.push(TokenView { loc: loc@, dat: dat@ }),
                ..old(self)@
            }),
    {
        self.tokens.push(Token { loc, dat });
        assert(self@.tokens =~= old(self)@.tokens.push(TokenView { loc: loc@, dat: dat@ }));
    }

    fn flush(&mut self, file: &str, line: usize, col: usize)
        ensures
            final(self)@ == old(self)@.flush(file@, line as nat, col as nat),
    {
        let dat = classify_chars(&self.buf);
        let loc = Location { filename: file.to_owned(), line: self.line, col: self.col };
        self.push(loc, dat);
        self.buf = Vec::new();
        self.in_string = false;
        self.line = line;
        self.col = col;
    }

    fn mark(&mut self, file: &str, dat: TokenType, line: usize, col: usize)
        ensures
            final(self)@ == old(self)@.mark(file@, dat@, line as nat, col as nat),
    {
        let loc = Location { filename: file.to_owned(), line: self.line, col: self.col };
        self.push(loc, dat);
        self.line = line;
        self.col = col;
    }

    fn step(&mut self, c: char, file: &str, line: usize, col: usize)
        requires
            col < usize::MAX,
        ensures
            final(self)@ == old(self)@.step(c, file@, line as nat, col as nat),
    {
        if self.in_string {
            self.buf.push(c);
            if c == '"' {
                self.flush(file, line, col + 1);
            }
        } else if c == '"' {
            let mut buf = Vec::new();
            buf.push(c);
            assert(buf@ =~= seq![c]);
            self.buf = buf;
            self.in_string = true;
            self.line = line;
            self.col = col;
        } else if c == ' ' {
            if self.buf_has_ink() {
                self.flush(file, line, col + 1);
            }
        } else if c == '(' {
            self.line = line;
            self.col = col;
            self.mark(file, TokenType::OpenParens, line, col + 1);
        } else if c == ')' {
            if self.buf_has_ink() {
                self.flush(file, line, col);
            }
            self.mark(file, TokenType::CloseParens, line, col + 1);
        } else {
            self.buf.push(c);
        }
    }
}

/// A guess at the number of tokens in `input`: a fifth of its length in bytes.
pub fn guess_capacity(input: &str) -> (n: usize)
    ensures
        n == span_width(input@, 0, input@.len() as int) / 5,
{
    proof {
        lemma_encoded_len(input@);
    }
    input.as_bytes().len() / 5
}

/// The tokens of `input`, each with its place in the file named `name`.
pub fn tokenize(input: &str, name: &str) -> (r: Result<Vec<Token>, LispError>)
    ensures
        r matches Ok(tokens) && token_views(tokens@) == tokens_of(input@, name@),
        r matches Ok(tokens) ==> literals_only(token_views(tokens@)),
{
    proof {
        lemma_tokens_are_literals(input@, name@);
    }
    let v = chars_of(input);
    let n = v.len();
    let ghost s = v@;
    let total = input.as_bytes().len();
    proof {
        lemma_encoded_len(s);
    }
    let mut lx = Lexer::new(guess_capacity(input));
    let mut from: usize = 0;
    let mut line: usize = 0;
    loop
        invariant_except_break
            tokens_of(input@, name@) == lex_lines(lx@, s, from as int, name@, line as nat).tokens,
        invariant
            s == v@,
            n == v.len(),
            from <= n,
            line <= from,
            total == span_width(s, 0, n as int),
        ensures
            tokens_of(input@, name@) == lx@.tokens,
        decreases n - from,
    {
        let mut end: usize = from;
        while end < n && v[end] != '\n'
            invariant
                s == v@,
                n == v.len(),
                from <= end <= n,
                find_char(s, '\n', from as int) == find_char(s, '\n', end as int),
            decreases n - end,
        {
            end += 1;
        }
        let mut lo: usize = from;
        while lo < end && is_whitespace(v[lo])
            invariant
                s == v@,
                from <= lo <= end <= n == v.len(),
                trim_lo(s, from as int, end as int) == trim_lo(s, lo as int, end as int),
            decreases end - lo,
        {
            lo += 1;
        }
        let mut hi: usize = end;
        while lo < hi && is_whitespace(v[hi - 1])
            invariant
                s == v@,
                lo <= hi <= end <= n == v.len(),
                trim_hi(s, lo as int, end as int) == trim_hi(s, lo as int, hi as int),
            decreases hi - lo,
        {
            hi -= 1;
        }
        let ghost before = lx@;
        let mut k: usize = lo;
        let mut col: usize = 0;
        while k < hi
            invariant
                s == v@,
                lo <= k <= hi <= n == v.len(),
                col == span_width(s, lo as int, k as int),
                total == span_width(s, 0, n as int),
                lex_span(before, s, lo as int, hi as int, name@, line as nat, 0) == lex_span(
                    lx@,
                    s,
                    k as int,
                    hi as int,
                    name@,
                    line as nat,
                    col as nat,
                ),
            decreases hi - k,
        {
            let c = v[k];
            proof {
                lemma_span_width_split(s, 0, lo as int, n as int);
                lemma_span_width_split(s, lo as int, k + 1, n as int);
                assert(span_width(s, lo as int, k + 1) == col + utf8_width(c));
            }
            lx.step(c, name, line, col);
            col += len_utf8(c);
            k += 1;
        }
        if end < n {
            from = end + 1;
            line += 1;
        } else {
            break;
        }
    }
    Ok(lx.tokens)
}

} // verus!
