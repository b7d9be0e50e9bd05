use vstd::prelude::*;
use vstd::string::StringSliceAdditionalSpecFns;

use crate::ast::Location;
use crate::tokens::{LexicalError, Token};

verus! {

/// One item of the token stream: a token with its byte span, or an error
/// with the span of the bytes that were skipped.
pub type Spanned = Result<(usize, Token, usize), (LexicalError, Location)>;

pub open spec fn is_blank(c: u8) -> bool {
    c == 32 || c == 9 || c == 10 || c == 12
}

pub open spec fn is_digit(c: u8) -> bool {
    48 <= c <= 57
}

pub open spec fn is_ident_start(c: u8) -> bool {
    (65 <= c <= 90) || (97 <= c <= 122) || c == 95
}

pub open spec fn is_ident_char(c: u8) -> bool {
    is_ident_start(c) || is_digit(c)
}

/// The single-byte tokens: `( ) = ; + - * /`.
pub open spec fn is_punct(c: u8) -> bool {
    c == 40 || c == 41 || c == 61 || c == 59 || c == 43 || c == 45 || c == 42 || c == 47
}

/// The characters of a byte string in which every byte is ASCII.
pub open spec fn ascii_chars(w: Seq<u8>) -> Seq<char> {
    Seq::new(w.len(), |i: int| w[i] as char)
}

/// The position just after the end of the line that contains `p`.
pub open spec fn line_end(b: Seq<u8>, p: int) -> int
    decreases b.len() - p,
{
    if p >= b.len() {
        b.len() as int
    } else if b[p] == 10 {
        p + 1
    } else {
        line_end(b, p + 1)
    }
}

/// The first position at or after `p` that holds neither whitespace nor a
/// `#` comment.
pub open spec fn skip_trivia(b: Seq<u8>, p: int) -> int
    decreases b.len() - p via skip_trivia_decreases
{
    if p < 0 || p >= b.len() {
        p
    } else if is_blank(b[p]) {
        skip_trivia(b, p + 1)
    } else if b[p] == 35 {
        skip_trivia(b, line_end(b, p + 1))
    } else {
        p
    }
}

/// The end of the longest run, from `p`, of digits (`digits`) or of
/// identifier characters.
pub open spec fn run_end(b: Seq<u8>, p: int, digits: bool) -> int
    decreases b.len() - p,
{
    if p >= b.len() {
        b.len() as int
    } else if (if digits { is_digit(b[p]) } else { is_ident_char(b[p]) }) {
        run_end(b, p + 1, digits)
    } else {
        p
    }
}

/// Number of bytes of the UTF-8 sequence that a byte starts.
pub open spec fn char_width(c: u8) -> int {
    if c < 0xC0 {
        1
    } else if c < 0xE0 {
        2
    } else if c < 0xF0 {
        3
    } else {
        4
    }
}

/// Whether a token starts at `p` (else the bytes there are invalid).
pub open spec fn starts_token(b: Seq<u8>, p: int) -> bool {
    is_ident_start(b[p]) || is_digit(b[p]) || is_punct(b[p])
}

/// Whether an integer literal starts at `p`: digits, or `-` and digits.
pub open spec fn starts_integer(b: Seq<u8>, p: int) -> bool {
    is_digit(b[p]) || (b[p] == 45 && p + 1 < b.len() && is_digit(b[p + 1]))
}

/// The end of the lexeme that starts at `p`, the longest match.
pub open spec fn lexeme_end(b: Seq<u8>, p: int) -> int {
    if is_ident_start(b[p]) {
        run_end(b, p + 1, false)
    } else if is_digit(b[p]) {
        run_end(b, p + 1, true)
    } else if starts_integer(b, p) {
        run_end(b, p + 2, true)
    } else if is_punct(b[p]) {
        p + 1
    } else if p + char_width(b[p]) < b.len() {
        p + char_width(b[p])
    } else {
        b.len() as int
    }
}

/// Whether `t` is the token for the lexeme `w`, which starts a token.
pub open spec fn denotes(t: Token, w: Seq<u8>) -> bool {
    let var_kw: Seq<u8> = seq![118u8, 97, 114];
    let print_kw: Seq<u8> = seq![112u8, 114, 105, 110, 116];
    match t {
        Token::KeywordVar => w == var_kw,
        Token::KeywordPrint => w == print_kw,
        Token::Identifier(s) => is_ident_start(w[0]) && w != var_kw && w != print_kw && s@
            == ascii_chars(w),
        Token::Integer(s) => (is_digit(w[0]) || w.len() > 1 && w[0] == 45) && s@ == ascii_chars(w),
        Token::LParen => w == seq![40u8],
        Token::RParen => w == seq![41u8],
        Token::Assign => w == seq![61u8],
        Token::Semicolon => w == seq![59u8],
        Token::OperatorAdd => w == seq![43u8],
        Token::OperatorSub => w == seq![45u8],
        Token::OperatorMul => w == seq![42u8],
        Token::OperatorDiv => w == seq![47u8],
    }
}

/// Whether `item` is what the lexer yields for the lexeme at `span`.
pub open spec fn item_for(b: Seq<u8>, item: Spanned, span: (int, int)) -> bool {
    match item {
        Ok((s, t, e)) => s == span.0 && e == span.1 && starts_token(b, span.0) && denotes(
            t,
            b.subrange(span.0, span.1),
        ),
        Err((err, loc)) => loc.0 == span.0 && loc.1 == span.1 && !starts_token(b, span.0) && err
            == LexicalError::InvalidToken,
    }
}

/// The spans of the lexemes of `b` from `p` on, left to right.
pub open spec fn lexeme_spans(b: Seq<u8>, p: int) -> Seq<(int, int)>
    decreases b.len() - p via lexeme_spans_decreases
{
    let q = skip_trivia(b, p);
    if p < 0 || p > b.len() || q >= b.len() {
        seq![]
    } else {
        seq![(q, lexeme_end(b, q))] + lexeme_spans(b, lexeme_end(b, q))
    }
}

#[via_fn]
proof fn skip_trivia_decreases(b: Seq<u8>, p: int) {
    if 0 <= p < b.len() && !is_blank(b[p]) && b[p] == 35 {
        lemma_line_end(b, p + 1);
    }
}

#[via_fn]
proof fn lexeme_spans_decreases(b: Seq<u8>, p: int) {
    if 0 <= p <= b.len() {
        lemma_skip_trivia(b, p);
        if skip_trivia(b, p) < b.len() {
            lemma_lexeme_end(b, skip_trivia(b, p));
        }
    }
}

pub proof fn lemma_line_end(b: Seq<u8>, p: int)
    requires
        0 <= p <= b.len(),
    ensures
        p <= line_end(b, p) <= b.len(),
    decreases b.len() - p,
{
    if p < b.len() && b[p] != 10 {
        lemma_line_end(b, p + 1);
    }
}

pub proof fn lemma_skip_trivia(b: Seq<u8>, p: int)
    requires
        0 <= p <= b.len(),
    ensures
        p <= skip_trivia(b, p) <= b.len(),
    decreases b.len() - p,
{
    if p < b.len() {
        if is_blank(b[p]) {
            lemma_skip_trivia(b, p + 1);
        } else if b[p] == 35 {
            lemma_line_end(b, p + 1);
            lemma_skip_trivia(b, line_end(b, p + 1));
        }
    }
}

pub proof fn lemma_run_end(b: Seq<u8>, p: int, digits: bool)
    requires
        0 <= p <= b.len(),
    ensures
        p <= run_end(b, p, digits) <= b.len(),
    decreases b.len() - p,
{
    if p < b.len() {
        lemma_run_end(b, p + 1, digits);
    }
}

pub proof fn lemma_lexeme_end(b: Seq<u8>, p: int)
    requires
        0 <= p < b.len(),
    ensures
        p < lexeme_end(b, p) <= b.len(),
{
    if is_ident_start(b[p]) {
        lemma_run_end(b, p + 1, false);
    } else if is_digit(b[p]) {
        lemma_run_end(b, p + 1, true);
    } else if starts_integer(b, p) {
        lemma_run_end(b, p + 2, true);
    }
}

/// The lexer always makes progress: the lexemes it finds from `p` on lie
/// within `[p, b.len()]`, each is non-empty, and each ends at or before the
/// start of the next, so the stream is finite and never revisits an offset.
pub proof fn lemma_lexer_progress(b: Seq<u8>, p: int)
    requires
        0 <= p <= b.len(),
    ensures
        forall|i: int|
            0 <= i < lexeme_spans(b, p).len() ==> p <= #[trigger] lexeme_spans(b, p)[i].0
                < lexeme_spans(b, p)[i].1 <= b.len(),
        forall|i: int|
            0 <= i < lexeme_spans(b, p).len() - 1 ==> #[trigger] lexeme_spans(b, p)[i].1
                <= lexeme_spans(b, p)[i + 1].0,
    decreases b.len() - p,
{
    lemma_skip_trivia(b, p);
    let q = skip_trivia(b, p);
    if q < b.len() {
        lemma_lexeme_end(b, q);
        let e = lexeme_end(b, q);
        lemma_lexer_progress(b, e);
        let rest = lexeme_spans(b, e);
        assert(lexeme_spans(b, p) == seq![(q, e)] + rest);
        if rest.len() > 0 {
            assert(rest[0].0 >= e);
        }
        assert forall|i: int| 0 <= i < lexeme_spans(b, p).len() - 1 implies #[trigger] lexeme_spans(
            b,
            p,
        )[i].1 <= lexeme_spans(b, p)[i + 1].0 by {
            if i > 0 {
                assert(lexeme_spans(b, p)[i] == rest[i - 1]);
            }
        }
    }
}

} // verus!

verus! {

/// Relies on `String::from_utf8`: a byte string in which every byte is ASCII
/// is valid UTF-8 and decodes to one character per byte.
#[verifier::external_body]
fn string_from_ascii(bytes: Vec<u8>) -> (r: Option<String>)
    requires
        forall|i: int| 0 <= i < bytes@.len() ==> bytes@[i] < 128,
    ensures
        r is Some,
        r->0@ == ascii_chars(bytes@),
{
    String::from_utf8(bytes).ok()
}

/// The text of `b[start..end]`, whose bytes are all ASCII.
fn ascii_text(b: &[u8], start: usize, end: usize) -> (r: String)
    requires
        start <= end <= b@.len(),
        forall|i: int| start <= i < end ==> b@[i] < 128,
    ensures
        r@ == ascii_chars(b@.subrange(start as int, end as int)),
{
    let mut bytes: Vec<u8> = Vec::new();
    let mut i = start;
    while i < end
        invariant
            start <= i <= end <= b@.len(),
            forall|k: int| start <= k < end ==> b@[k] < 128,
            bytes@ == b@.subrange(start as int, i as int),
        decreases end - i,
    {
        bytes.push(b[i]);
        i = i + 1;
        assert(bytes@ =~= b@.subrange(start as int, i as int));
    }
    match string_from_ascii(bytes) {
        Some(s) => s,
        None => String::new(),
    }
}

/// The end of the run of digits (or identifier characters) from `p`.
fn scan_run(b: &[u8], p: usize, digits: bool) -> (e: usize)
    requires
        p <= b@.len(),
    ensures
        e == run_end(b@, p as int, digits),
        p <= e <= b@.len(),
        forall|i: int| p <= i < e ==> (if digits { is_digit(b@[i]) } else { is_ident_char(b@[i]) }),
{
    let mut i = p;
    while i < b.len()
        invariant
            p <= i <= b@.len(),
            run_end(b@, p as int, digits) == run_end(b@, i as int, digits),
            forall|k: int| p <= k < i ==> (if digits { is_digit(b@[k]) } else { is_ident_char(b@[k]) }),
        decreases b@.len() - i,
    {
        let c = b[i];
        let more = if digits {
            48 <= c && c <= 57
        } else {
            (65 <= c && c <= 90) || (97 <= c && c <= 122) || c == 95 || (48 <= c && c <= 57)
        };
        if !more {
            return i;
        }
        i = i + 1;
    }
    i
}

/// The first position at or after `p` that is not whitespace or comment.
fn skip_blanks(b: &[u8], p: usize) -> (q: usize)
    requires
        p <= b@.len(),
    ensures
        q == skip_trivia(b@, p as int),
        p <= q <= b@.len(),
{
    let n = b.len();
    let mut i = p;
    while i < n
        invariant
            p <= i <= n == b@.len(),
            skip_trivia(b@, p as int) == skip_trivia(b@, i as int),
        decreases n - i,
    {
        let c = b[i];
        if c == 32 || c == 9 || c == 10 || c == 12 {
            i = i + 1;
        } else if c == 35 {
            let ghost start = i + 1;
            i = i + 1;
            while i < n && b[i] != 10
                invariant
                    start <= i <= n == b@.len(),
                    line_end(b@, start) == line_end(b@, i as int),
                decreases n - i,
            {
                i = i + 1;
            }
            if i < n {
                i = i + 1;
            }
        } else {
            return i;
        }
    }
    i
}

/// Width of the invalid sequence that starts at `p`, within the input.
fn invalid_end(b: &[u8], p: usize) -> (e: usize)
    requires
        p < b@.len(),
        !starts_token(b@, p as int),
    ensures
        e == lexeme_end(b@, p as int),
{
    let c = b[p];
    let w: usize = if c < 0xC0 {
        1
    } else if c < 0xE0 {
        2
    } else if c < 0xF0 {
        3
    } else {
        4
    };
    if w < b.len() - p {
        p + w
    } else {
        b.len()
    }
}

/// The lexer: reads a source text left to right, one lexeme per call.
pub struct Lexer<'input> {
    pub input: &'input [u8],
    pub position: usize,
}

impl<'input> Lexer<'input> {
    pub fn new(source: &'input str) -> (r: Self)
        ensures
            r.input@ == source.spec_bytes(),
            r.position == 0,
    {
        Lexer { input: source.as_bytes(), position: 0 }
    }

    /// The next item of the stream, or `None` at its end.
    pub fn next_token(&mut self) -> (r: Option<Spanned>)
        requires
            old(self).position <= old(self).input@.len(),
        ensures
            final(self).input == old(self).input,
            final(self).position <= final(self).input@.len(),
            r is Some ==> final(self).position > old(self).position,
            ({
                let b = old(self).input@;
                let spans = lexeme_spans(b, old(self).position as int);
                match r {
                    None => spans.len() == 0,
                    Some(item) => spans.len() > 0 && item_for(b, item, spans[0])
                        && spans.drop_first() == lexeme_spans(b, final(self).position as int),
                }
            }),
    {
        let b = self.input;
        let n = b.len();
        let q = skip_blanks(b, self.position);
        proof {
            lemma_skip_trivia(b@, self.position as int);
        }
        if q >= n {
            self.position = n;
            return None;
        }
        proof {
            lemma_lexeme_end(b@, q as int);
        }
        let c = b[q];
        let item: Spanned;
        let e: usize;
        if (65 <= c && c <= 90) || (97 <= c && c <= 122) || c == 95 {
            e = scan_run(b, q + 1, false);
            let w = Ghost(b@.subrange(q as int, e as int));
            let t = if e - q == 3 && b[q] == 118 && b[q + 1] == 97 && b[q + 2] == 114 {
                assert(w@ =~= seq![118u8, 97, 114]);
                Token::KeywordVar
            } else if e - q == 5 && b[q] == 112 && b[q + 1] == 114 && b[q + 2] == 105 && b[q + 3]
                == 110 && b[q + 4] == 116 {
                assert(w@ =~= seq![112u8, 114, 105, 110, 116]);
                Token::KeywordPrint
            } else {
                assert(w@ != seq![118u8, 97, 114] && w@ != seq![112u8, 114, 105, 110, 116]) by {
                    let kv: Seq<u8> = seq![118u8, 97, 114];
                    let kp: Seq<u8> = seq![112u8, 114, 105, 110, 116];
                    assert(kv.len() == 3 && kv[0] == 118 && kv[1] == 97 && kv[2] == 114);
                    assert(kp.len() == 5 && kp[0] == 112 && kp[1] == 114 && kp[2] == 105 && kp[3]
                        == 110 && kp[4] == 116);
                    if w@ == kv {
                        assert(w@[0] == b@[q as int] && w@[1] == b@[q + 1] && w@[2] == b@[q + 2]);
                    }
                    if w@ == kp {
                        assert(w@[0] == b@[q as int] && w@[1] == b@[q + 1] && w@[2] == b@[q + 2]
                            && w@[3] == b@[q + 3] && w@[4] == b@[q + 4]);
                    }
                }
                Token::Identifier(ascii_text(b, q, e))
            };
            item = Ok((q, t, e));
        } else if (48 <= c && c <= 57) || (c == 45 && q + 1 < n && 48 <= b[q + 1] && b[q + 1]
            <= 57) {
            let from = if c == 45 {
                q + 2
            } else {
                q + 1
            };
            e = scan_run(b, from, true);
            let t = Token::Integer(ascii_text(b, q, e));
            item = Ok((q, t, e));
        } else if c == 40 || c == 41 || c == 61 || c == 59 || c == 43 || c == 45 || c == 42 || c
            == 47 {
            e = q + 1;
            let t = if c == 40 {
                Token::LParen
            } else if c == 41 {
                Token::RParen
            } else if c == 61 {
                Token::Assign
            } else if c == 59 {
                Token::Semicolon
            } else if c == 43 {
                Token::OperatorAdd
            } else if c == 45 {
                Token::OperatorSub
            } else if c == 42 {
                Token::OperatorMul
            } else {
                Token::OperatorDiv
            };
            assert(b@.subrange(q as int, e as int) =~= seq![c]);
            item = Ok((q, t, e));
        } else {
            e = invalid_end(b, q);
            item = Err((LexicalError::InvalidToken, Location(q, e)));
        }
        self.position = e;
        Some(item)
    }
}

/// The whole token stream of a source text.
pub fn tokenize(source: &str) -> (r: Vec<Spanned>)
    ensures
        r@.len() == lexeme_spans(source.spec_bytes(), 0).len(),
        forall|i: int|
            0 <= i < r@.len() ==> item_for(
                source.spec_bytes(),
                #[trigger] r@[i],
                lexeme_spans(source.spec_bytes(), 0)[i],
            ),
{
    let mut lexer = Lexer::new(source);
    let ghost b = source.spec_bytes();
    let ghost all = lexeme_spans(b, 0);
    let mut out: Vec<Spanned> = Vec::new();
    assert(all.subrange(0, all.len() as int) =~= all);
    loop
        invariant
            b == source.spec_bytes(),
            all == lexeme_spans(b, 0),
            lexer.input@ == b,
            lexer.position <= b.len(),
            out@.len() + lexeme_spans(b, lexer.position as int).len() == all.len(),
            lexeme_spans(b, lexer.position as int) == all.subrange(out@.len() as int, all.len() as int),
            forall|i: int| 0 <= i < out@.len() ==> item_for(b, #[trigger] out@[i], all[i]),
        decreases b.len() - lexer.position,
    {
        let ghost before = lexer.position;
        match lexer.next_token() {
            None => {
                return out;
            },
            Some(item) => {
                proof {
                    lemma_skip_trivia(b, before as int);
                    lemma_lexeme_end(b, skip_trivia(b, before as int));
                }
                out.push(item);
                assert(all.subrange(out@.len() as int, all.len() as int) =~= all.subrange(
                    out@.len() - 1,
                    all.len() as int,
                ).drop_first());
            },
        }
    }
}

/// Whether `t` is the token stream of the source bytes `b`.
pub open spec fn lexes_to(b: Seq<u8>, t: Seq<Spanned>) -> bool {
    t.len() == lexeme_spans(b, 0).len() && forall|i: int|
        0 <= i < t.len() ==> item_for(b, #[trigger] t[i], lexeme_spans(b, 0)[i])
}

/// The total length of a list of spans.
pub open spec fn spans_total(spans: Seq<(int, int)>) -> int
    decreases spans.len(),
{
    if spans.len() == 0 {
        0
    } else {
        (spans[0].1 - spans[0].0) + spans_total(spans.drop_first())
    }
}

/// The lexemes from `p` on, tokens and invalid bytes alike, together take up
/// no more than the bytes that remain.
pub proof fn lemma_lexemes_fit(b: Seq<u8>, p: int)
    requires
        0 <= p <= b.len(),
    ensures
        spans_total(lexeme_spans(b, p)) <= b.len() - p,
    decreases b.len() - p,
{
    lemma_skip_trivia(b, p);
    let q = skip_trivia(b, p);
    if q < b.len() {
        lemma_lexeme_end(b, q);
        let e = lexeme_end(b, q);
        lemma_lexemes_fit(b, e);
        assert((seq![(q, e)] + lexeme_spans(b, e)).drop_first() =~= lexeme_spans(b, e));
    }
}

/// Each token of the stream of `b` is non-empty, lies within `b`, and is the
/// token of exactly its source bytes: an identifier's or a literal's text is
/// its slice of the source, and a keyword or symbol is its spelling. Each
/// error item covers a non-empty run of bytes at which no token starts.
pub proof fn lemma_tokens_are_slices(b: Seq<u8>, t: Seq<Spanned>)
    requires
        lexes_to(b, t),
    ensures
        forall|i: int|
            0 <= i < t.len() ==> match #[trigger] t[i] {
                Ok((s, tok, e)) => s < e <= b.len() && denotes(tok, b.subrange(s as int, e as int)),
                Err((err, l)) => l.0 < l.1 <= b.len() && err == LexicalError::InvalidToken
                    && !starts_token(b, l.0 as int),
            },
{
    lemma_lexer_progress(b, 0);
    assert forall|i: int| 0 <= i < t.len() implies match #[trigger] t[i] {
        Ok((s, tok, e)) => s < e <= b.len() && denotes(tok, b.subrange(s as int, e as int)),
        Err((err, l)) => l.0 < l.1 <= b.len() && err == LexicalError::InvalidToken && !starts_token(
            b,
            l.0 as int,
        ),
    } by {
        assert(item_for(b, t[i], lexeme_spans(b, 0)[i]));
        let sp = lexeme_spans(b, 0)[i];
        assert(0 <= sp.0 < sp.1 <= b.len());
    }
}

} // verus!
