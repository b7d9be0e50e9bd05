use vstd::prelude::*;
use vstd::utf8::encode_utf8;

use crate::ast::{
    expr_location, stmts_view, ExprModel, Expression, ExpressionKind, Location, Operator, Statement,
    StatementKind, StmtModel,
};
use crate::lexer::Spanned;
use crate::reporting::{strings_view, Message, MessageModel, ParseError};
use crate::tokens::{token_text, IntegerOverflow, LexicalError, Token};

verus! {

/// What the grammar accepts at the point where a parse error is found.
#[derive(Clone, Copy, Debug, PartialEq, Eq, Structural)]
pub enum Expect {
    /// The start of a statement.
    Statement,
    /// The name after `var`.
    Name,
    /// The `=` after the name.
    Assign,
    /// The start of an operand.
    Operand,
    /// An operator, or the `;` that ends a statement.
    StatementEnd,
    /// An operator, or the `)` that closes a parenthesis.
    CloseParen,
}

/// The token names listed as expected, in diagnostics.
pub open spec fn expected_names(k: Expect) -> Seq<Seq<char>> {
    match k {
        Expect::Statement => seq!["\"print\""@, "\"var\""@],
        Expect::Name => seq!["identifier"@],
        Expect::Assign => seq!["\"=\""@],
        Expect::Operand => seq!["\"(\""@, "identifier"@, "integer"@],
        Expect::StatementEnd => seq!["\"*\""@, "\"+\""@, "\"-\""@, "\"/\""@, "\";\""@],
        Expect::CloseParen => seq!["\")\""@, "\"*\""@, "\"+\""@, "\"-\""@, "\"/\""@],
    }
}

/// The outcome of parsing a phrase at a position: the phrase and the
/// position after it, or a diagnostic and the position where it arose.
pub type Parsed<T> = Result<(T, int), (MessageModel, int)>;

pub open spec fn item_location(it: Spanned) -> Location {
    match it {
        Ok((s, _, e)) => Location(s, e),
        Err((_, l)) => l,
    }
}

/// Where the input ends: the end of its last item, or 0.
pub open spec fn input_end(t: Seq<Spanned>) -> usize {
    if t.len() == 0 {
        0
    } else {
        item_location(t.last()).1
    }
}

/// The diagnostic for finding `t[i]` (or the end of input) where `k` was
/// expected. A lexical error item reports itself.
pub open spec fn failure(t: Seq<Spanned>, i: int, k: Expect) -> MessageModel {
    if i < 0 || i >= t.len() {
        MessageModel::UnrecognizedEof(Location(input_end(t), input_end(t)), expected_names(k))
    } else {
        match t[i] {
            Ok((s, tok, e)) => MessageModel::UnrecognisedToken(
                Location(s, e),
                token_text(tok),
                expected_names(k),
            ),
            Err((err, l)) => MessageModel::LexerError(err, l),
        }
    }
}

pub open spec fn is_token(t: Seq<Spanned>, i: int, want: Token) -> bool {
    0 <= i < t.len() && (match t[i] {
        Ok((_, tok, _)) => tok == want,
        Err(_) => false,
    })
}

/// The multiplicative operator at `i`, if any.
pub open spec fn product_op(t: Seq<Spanned>, i: int) -> Option<Operator> {
    if is_token(t, i, Token::OperatorMul) {
        Some(Operator::Mul)
    } else if is_token(t, i, Token::OperatorDiv) {
        Some(Operator::Div)
    } else {
        None
    }
}

/// The additive operator at `i`, if any.
pub open spec fn sum_op(t: Seq<Spanned>, i: int) -> Option<Operator> {
    if is_token(t, i, Token::OperatorAdd) {
        Some(Operator::Add)
    } else if is_token(t, i, Token::OperatorSub) {
        Some(Operator::Sub)
    } else {
        None
    }
}

pub open spec fn binary(lhs: ExprModel, op: Operator, rhs: ExprModel) -> ExprModel {
    ExprModel::Binary(
        Location(expr_location(lhs).0, expr_location(rhs).1),
        Box::new(lhs),
        op,
        Box::new(rhs),
    )
}

/// Whether `w` is the text of an integer literal: an optional `-`, then digits.
pub open spec fn is_integer_text(w: Seq<u8>) -> bool {
    digits_part(w).len() > 0 && forall|i: int|
        0 <= i < digits_part(w).len() ==> 48 <= #[trigger] digits_part(w)[i] <= 57
}

/// The text of a literal without its sign.
pub open spec fn digits_part(w: Seq<u8>) -> Seq<u8> {
    if w.len() > 0 && w[0] == 45 {
        w.drop_first()
    } else {
        w
    }
}

/// The number that a run of decimal digits spells.
pub open spec fn digits_value(d: Seq<u8>) -> int
    decreases d.len(),
{
    if d.len() == 0 {
        0
    } else {
        digits_value(d.drop_last()) * 10 + (d.last() - 48)
    }
}

/// The number that an integer literal's text spells.
pub open spec fn literal_value(w: Seq<u8>) -> int {
    if w.len() > 0 && w[0] == 45 {
        -digits_value(digits_part(w))
    } else {
        digits_value(digits_part(w))
    }
}

/// The expression for an integer literal with text `w`: its value if that
/// fits in an `i64`, else an error node that says which bound it passed.
pub open spec fn literal_model(w: Seq<u8>, l: Location) -> ExprModel {
    if !is_integer_text(w) {
        ExprModel::Error(l, MessageModel::LexerError(LexicalError::InvalidToken, l))
    } else if literal_value(w) > i64::MAX {
        ExprModel::Error(
            l,
            MessageModel::LexerError(LexicalError::InvalidInteger(IntegerOverflow::Positive), l),
        )
    } else if literal_value(w) < i64::MIN {
        ExprModel::Error(
            l,
            MessageModel::LexerError(LexicalError::InvalidInteger(IntegerOverflow::Negative), l),
        )
    } else {
        ExprModel::Integer(l, literal_value(w) as i64)
    }
}

/// An operand: a literal, a variable, or a parenthesised expression.
pub open spec fn atom(t: Seq<Spanned>, i: int) -> Parsed<ExprModel>
    decreases t.len() - i, 0nat,
{
    if i < 0 || i >= t.len() {
        Err((failure(t, i, Expect::Operand), i))
    } else {
        match t[i] {
            Ok((s, Token::Integer(text), e)) => Ok(
                (literal_model(encode_utf8(text@), Location(s, e)), i + 1),
            ),
            Ok((s, Token::Identifier(name), e)) => Ok(
                (ExprModel::Variable(Location(s, e), name@), i + 1),
            ),
            Ok((_, Token::LParen, _)) => match sum(t, i + 1) {
                Err(x) => Err(x),
                Ok((inner, j)) => if is_token(t, j, Token::RParen) {
                    Ok((inner, j + 1))
                } else {
                    Err((failure(t, j, Expect::CloseParen), j))
                },
            },
            _ => Err((failure(t, i, Expect::Operand), i)),
        }
    }
}

/// Operands joined by `*` and `/`, grouped to the left.
pub open spec fn product(t: Seq<Spanned>, i: int) -> Parsed<ExprModel>
    decreases t.len() - i, 1nat,
{
    match atom(t, i) {
        Err(x) => Err(x),
        Ok((lhs, j)) => if i < j <= t.len() {
            product_tail(t, lhs, j)
        } else {
            Ok((lhs, j))
        },
    }
}

/// The rest of a product whose operands up to `j` make `lhs`.
pub open spec fn product_tail(t: Seq<Spanned>, lhs: ExprModel, j: int) -> Parsed<ExprModel>
    decreases t.len() - j, 1nat,
{
    match product_op(t, j) {
        None => Ok((lhs, j)),
        Some(op) => match atom(t, j + 1) {
            Err(x) => Err(x),
            Ok((rhs, k)) => if j < k <= t.len() {
                product_tail(t, binary(lhs, op, rhs), k)
            } else {
                Ok((lhs, j))
            },
        },
    }
}

/// Products joined by `+` and `-`, grouped to the left.
pub open spec fn sum(t: Seq<Spanned>, i: int) -> Parsed<ExprModel>
    decreases t.len() - i, 2nat,
{
    match product(t, i) {
        Err(x) => Err(x),
        Ok((lhs, j)) => if i < j <= t.len() {
            sum_tail(t, lhs, j)
        } else {
            Ok((lhs, j))
        },
    }
}

/// The rest of a sum whose terms up to `j` make `lhs`.
pub open spec fn sum_tail(t: Seq<Spanned>, lhs: ExprModel, j: int) -> Parsed<ExprModel>
    decreases t.len() - j, 2nat,
{
    match sum_op(t, j) {
        None => Ok((lhs, j)),
        Some(op) => match product(t, j + 1) {
            Err(x) => Err(x),
            Ok((rhs, k)) => if j < k <= t.len() {
                sum_tail(t, binary(lhs, op, rhs), k)
            } else {
                Ok((lhs, j))
            },
        },
    }
}

/// The `;` after the expression that `body` parsed, with the location of
/// the statement from `start` through that `;`.
pub open spec fn terminated(t: Seq<Spanned>, start: usize, body: Parsed<ExprModel>) -> Parsed<
    (Location, ExprModel),
> {
    match body {
        Err(x) => Err(x),
        Ok((v, j)) => if is_token(t, j, Token::Semicolon) {
            Ok(((Location(start, item_location(t[j]).1), v), j + 1))
        } else {
            Err((failure(t, j, Expect::StatementEnd), j))
        },
    }
}

/// One statement starting at `i`.
pub open spec fn statement(t: Seq<Spanned>, i: int) -> Parsed<StmtModel> {
    if i < 0 || i >= t.len() {
        Err((failure(t, i, Expect::Statement), i))
    } else {
        match t[i] {
            Ok((s, Token::KeywordVar, _)) => {
                if !(i + 1 < t.len() && t[i + 1] matches Ok((_, Token::Identifier(_), _))) {
                    Err((failure(t, i + 1, Expect::Name), i + 1))
                } else if !is_token(t, i + 2, Token::Assign) {
                    Err((failure(t, i + 2, Expect::Assign), i + 2))
                } else {
                    match terminated(t, s, sum(t, i + 3)) {
                        Err(x) => Err(x),
                        Ok(((l, v), j)) => Ok(
                            (StmtModel::Variable(l, t[i + 1]->Ok_0.1->Identifier_0@, v), j),
                        ),
                    }
                }
            },
            Ok((s, Token::KeywordPrint, _)) => match terminated(t, s, sum(t, i + 1)) {
                Err(x) => Err(x),
                Ok(((l, v), j)) => Ok((StmtModel::Print(l, v), j)),
            },
            _ => Err((failure(t, i, Expect::Statement), i)),
        }
    }
}

/// The first `;` at or after `j`, or the end of input.
pub open spec fn next_semicolon(t: Seq<Spanned>, j: int) -> int
    decreases t.len() - j,
{
    if j < 0 || j >= t.len() {
        t.len() as int
    } else if is_token(t, j, Token::Semicolon) {
        j
    } else {
        next_semicolon(t, j + 1)
    }
}

/// The statements from `i` on. A statement that fails to parse becomes an
/// error node spanning up to and including the next `;`, and parsing
/// resumes after it; when no `;` follows, the error node runs to the end of
/// input. Only when the input's first statement fails with no `;` after
/// it, so that no statement structure forms at all, does the whole parse
/// fail, with that statement's diagnostic.
pub open spec fn script(t: Seq<Spanned>, i: int) -> Result<Seq<StmtModel>, MessageModel>
    decreases t.len() - i,
{
    if i < 0 || i >= t.len() {
        Ok(seq![])
    } else {
        let (first, next) = match statement(t, i) {
            Ok((st, j)) => (Ok(st), j),
            Err((m, j)) => {
                let k = next_semicolon(t, j);
                if i <= k < t.len() {
                    (
                        Ok(
                            StmtModel::Error(
                                Location(item_location(t[i]).0, item_location(t[k]).1),
                                m,
                            ),
                        ),
                        k + 1,
                    )
                } else if i == 0 {
                    (Err(m), t.len() as int)
                } else {
                    (
                        Ok(StmtModel::Error(Location(item_location(t[i]).0, input_end(t)), m)),
                        t.len() as int,
                    )
                }
            },
        };
        match first {
            Err(m) => Err(m),
            Ok(st) => if next > i {
                match script(t, next) {
                    Ok(rest) => Ok(seq![st] + rest),
                    Err(m) => Err(m),
                }
            } else {
                Ok(seq![st])
            },
        }
    }
}

pub open spec fn expr_parsed(r: Result<(Box<Expression>, usize), (Message, usize)>) -> Parsed<
    ExprModel,
> {
    match r {
        Ok((e, j)) => Ok((e@, j as int)),
        Err((m, j)) => Err((m@, j as int)),
    }
}

pub open spec fn stmt_parsed(r: Result<(Statement, usize), (Message, usize)>) -> Parsed<StmtModel> {
    match r {
        Ok((st, j)) => Ok((st@, j as int)),
        Err((m, j)) => Err((m@, j as int)),
    }
}

fn expected(k: Expect) -> (r: Vec<String>)
    ensures
        strings_view(r) == expected_names(k),
{
    let names: Vec<&str> = match k {
        Expect::Statement => vec!["\"print\"", "\"var\""],
        Expect::Name => vec!["identifier"],
        Expect::Assign => vec!["\"=\""],
        Expect::Operand => vec!["\"(\"", "identifier", "integer"],
        Expect::StatementEnd => vec!["\"*\"", "\"+\"", "\"-\"", "\"/\"", "\";\""],
        Expect::CloseParen => vec!["\")\"", "\"*\"", "\"+\"", "\"-\"", "\"/\""],
    };
    let ghost want = expected_names(k);
    assert(names@.len() == want.len() && forall|i: int|
        0 <= i < want.len() ==> names@[i]@ == #[trigger] want[i]);
    let mut r: Vec<String> = Vec::new();
    let mut i: usize = 0;
    while i < names.len()
        invariant
            i <= names@.len() == want.len(),
            forall|j: int| 0 <= j < want.len() ==> names@[j]@ == #[trigger] want[j],
            r@.len() == i,
            forall|j: int| 0 <= j < i ==> (#[trigger] r@[j])@ == want[j],
        decreases names@.len() - i,
    {
        r.push(String::from_str(names[i]));
        i = i + 1;
    }
    assert(strings_view(r) =~= want);
    r
}

fn item_loc(it: &Spanned) -> (r: Location)
    ensures
        r == item_location(*it),
{
    match it {
        Ok((s, _, e)) => Location(*s, *e),
        Err((_, l)) => *l,
    }
}

fn input_end_of(t: &Vec<Spanned>) -> (r: usize)
    ensures
        r == input_end(t@),
{
    if t.len() == 0 {
        0
    } else {
        item_loc(&t[t.len() - 1]).1
    }
}

fn fail(t: &Vec<Spanned>, i: usize, k: Expect) -> (r: Message)
    ensures
        r@ == failure(t@, i as int, k),
{
    if i >= t.len() {
        let end = input_end_of(t);
        Message::ParseError(
            Box::new(
                ParseError::UnrecognizedEof { location: Location(end, end), expected: expected(k) },
            ),
        )
    } else {
        match &t[i] {
            Ok((s, tok, e)) => Message::ParseError(
                Box::new(
                    ParseError::UnrecognisedToken {
                        location: Location(*s, *e),
                        token: tok.describe(),
                        expected: expected(k),
                    },
                ),
            ),
            Err((err, l)) => Message::lexer_error(*err, *l),
        }
    }
}

fn at_semicolon(t: &Vec<Spanned>, i: usize) -> (r: bool)
    ensures
        r == is_token(t@, i as int, Token::Semicolon),
{
    i < t.len() && matches!(t[i], Ok((_, Token::Semicolon, _)))
}

proof fn lemma_digits_grow(d: Seq<u8>, j: int, k: int)
    requires
        0 <= j <= k <= d.len(),
        forall|i: int| 0 <= i < d.len() ==> 48 <= #[trigger] d[i] <= 57,
    ensures
        0 <= digits_value(d.subrange(0, j)) <= digits_value(d.subrange(0, k)),
    decreases k,
{
    if k > j {
        lemma_digits_grow(d, j, k - 1);
        assert(d.subrange(0, k).drop_last() =~= d.subrange(0, k - 1));
    } else if k > 0 {
        lemma_digits_grow(d, 0, k - 1);
        assert(d.subrange(0, k).drop_last() =~= d.subrange(0, k - 1));
    } else {
        assert(d.subrange(0, 0) =~= Seq::<u8>::empty());
    }
}

/// The expression for an integer literal token with text `text`.
fn parse_literal(text: &String, l: Location) -> (r: Box<Expression>)
    ensures
        r@ == literal_model(encode_utf8(text@), l),
{
    let w = text.as_str().as_bytes();
    let ghost ws = w@;
    assert(ws == encode_utf8(text@));
    let negative = w.len() > 0 && w[0] == 45;
    let first: usize = if negative { 1 } else { 0 };
    let ghost d = digits_part(ws);
    assert(d =~= ws.subrange(first as int, ws.len() as int));
    let mut valid = w.len() > first;
    let mut i = first;
    while i < w.len()
        invariant
            first <= i <= w@.len(),
            ws == w@,
            ws == encode_utf8(text@),
            negative == (ws.len() > 0 && ws[0] == 45),
            first == (if negative { 1usize } else { 0usize }),
            d == digits_part(ws),
            d == ws.subrange(first as int, ws.len() as int),
            forall|k: int| 0 <= k < d.len() ==> #[trigger] d[k] == ws[k + first],
            valid == (d.len() > 0 && forall|k: int| 0 <= k < i - first ==> 48 <= #[trigger] d[k] <= 57),
        decreases w@.len() - i,
    {
        assert(d[i - first] == ws[i as int]);
        if w[i] < 48 || w[i] > 57 {
            valid = false;
        }
        i = i + 1;
    }
    assert(i - first == d.len());
    assert(valid == is_integer_text(ws)) by {
        if valid {
            assert forall|k: int| 0 <= k < d.len() implies 48 <= #[trigger] d[k] <= 57 by {
                assert(0 <= k < i - first);
            }
        }
        if is_integer_text(ws) {
            assert(d.len() > 0);
            assert forall|k: int| 0 <= k < i - first implies 48 <= #[trigger] d[k] <= 57 by {
                assert(0 <= k < d.len());
            }
        }
    }
    if !valid {
        let m = Message::lexer_error(LexicalError::InvalidToken, l);
        return ExpressionKind::Error(m).with_loc(l);
    }
    let limit: i128 = 0x8000_0000_0000_0000;
    let mut acc: i128 = 0;
    let mut big = false;
    let mut i = first;
    while i < w.len()
        invariant
            first <= i <= w@.len(),
            ws == w@,
            ws == encode_utf8(text@),
            negative == (ws.len() > 0 && ws[0] == 45),
            first == (if negative { 1usize } else { 0usize }),
            d == digits_part(ws),
            d == ws.subrange(first as int, ws.len() as int),
            forall|k: int| 0 <= k < d.len() ==> 48 <= #[trigger] d[k] <= 57,
            forall|k: int| 0 <= k < d.len() ==> #[trigger] d[k] == ws[k + first],
            limit == 0x8000_0000_0000_0000,
            !big ==> acc == digits_value(d.subrange(0, i - first)) && 0 <= acc <= limit,
            big ==> digits_value(d) > limit,
        decreases w@.len() - i,
    {
        if !big {
            assert(d[i - first] == ws[i as int]);
            let next = acc * 10 + (w[i] - 48) as i128;
            proof {
                assert(d.subrange(0, i + 1 - first).drop_last() =~= d.subrange(0, i - first));
                assert(d[i - first] == w@[i as int]);
            }
            if next > limit {
                proof {
                    lemma_digits_grow(d, i + 1 - first, d.len() as int);
                    assert(d.subrange(0, d.len() as int) =~= d);
                }
                big = true;
            } else {
                acc = next;
            }
        }
        i = i + 1;
    }
    proof {
        assert(d.subrange(0, d.len() as int) =~= d);
    }
    let kind = if big {
        if negative {
            ExpressionKind::Error(
                Message::lexer_error(LexicalError::InvalidInteger(IntegerOverflow::Negative), l),
            )
        } else {
            ExpressionKind::Error(
                Message::lexer_error(LexicalError::InvalidInteger(IntegerOverflow::Positive), l),
            )
        }
    } else if negative {
        ExpressionKind::Integer((0 - acc) as i64)
    } else if acc == limit {
        ExpressionKind::Error(
            Message::lexer_error(LexicalError::InvalidInteger(IntegerOverflow::Positive), l),
        )
    } else {
        ExpressionKind::Integer(acc as i64)
    };
    kind.with_loc(l)
}

fn parse_atom(t: &Vec<Spanned>, i: usize) -> (r: Result<(Box<Expression>, usize), (Message, usize)>)
    requires
        i <= t@.len(),
    ensures
        expr_parsed(r) == atom(t@, i as int),
        r matches Ok((_, j)) ==> i < j <= t@.len(),
        r matches Err((_, j)) ==> i <= j <= t@.len(),
    decreases t@.len() - i, 0nat,
{
    if i >= t.len() {
        return Err((fail(t, i, Expect::Operand), i));
    }
    match &t[i] {
        Ok((s, Token::Integer(text), e)) => Ok((parse_literal(text, Location(*s, *e)), i + 1)),
        Ok((s, Token::Identifier(name), e)) => Ok(
            (ExpressionKind::Variable(name.clone()).with_loc(Location(*s, *e)), i + 1),
        ),
        Ok((_, Token::LParen, _)) => {
            let (inner, j) = match parse_sum(t, i + 1) {
                Ok(x) => x,
                Err(x) => return Err(x),
            };
            if j < t.len() && matches!(t[j], Ok((_, Token::RParen, _))) {
                Ok((inner, j + 1))
            } else {
                Err((fail(t, j, Expect::CloseParen), j))
            }
        },
        _ => Err((fail(t, i, Expect::Operand), i)),
    }
}

fn parse_product(t: &Vec<Spanned>, i: usize) -> (r: Result<(Box<Expression>, usize), (Message, usize)>)
    requires
        i <= t@.len(),
    ensures
        expr_parsed(r) == product(t@, i as int),
        r matches Ok((_, j)) ==> i < j <= t@.len(),
        r matches Err((_, j)) ==> i <= j <= t@.len(),
    decreases t@.len() - i, 1nat,
{
    let (mut lhs, mut j) = match parse_atom(t, i) {
        Ok(x) => x,
        Err(x) => return Err(x),
    };
    loop
        invariant
            i < j <= t@.len(),
            product(t@, i as int) == product_tail(t@, lhs@, j as int),
        decreases t@.len() - j,
    {
        let op = if j >= t.len() {
            None
        } else {
            match &t[j] {
                Ok((_, Token::OperatorMul, _)) => Some(Operator::Mul),
                Ok((_, Token::OperatorDiv, _)) => Some(Operator::Div),
                _ => None,
            }
        };
        assert(op == product_op(t@, j as int));
        match op {
            None => return Ok((lhs, j)),
            Some(operator) => {
                let (rhs, k) = match parse_atom(t, j + 1) {
                    Ok(x) => x,
                    Err(x) => return Err(x),
                };
                let location = Location(lhs.location.0, rhs.location.1);
                lhs = ExpressionKind::BinaryOperation { lhs, operator, rhs }.with_loc(location);
                j = k;
            },
        }
    }
}

fn parse_sum(t: &Vec<Spanned>, i: usize) -> (r: Result<(Box<Expression>, usize), (Message, usize)>)
    requires
        i <= t@.len(),
    ensures
        expr_parsed(r) == sum(t@, i as int),
        r matches Ok((_, j)) ==> i < j <= t@.len(),
        r matches Err((_, j)) ==> i <= j <= t@.len(),
    decreases t@.len() - i, 2nat,
{
    let (mut lhs, mut j) = match parse_product(t, i) {
        Ok(x) => x,
        Err(x) => return Err(x),
    };
    loop
        invariant
            i < j <= t@.len(),
            sum(t@, i as int) == sum_tail(t@, lhs@, j as int),
        decreases t@.len() - j,
    {
        let op = if j >= t.len() {
            None
        } else {
            match &t[j] {
                Ok((_, Token::OperatorAdd, _)) => Some(Operator::Add),
                Ok((_, Token::OperatorSub, _)) => Some(Operator::Sub),
                _ => None,
            }
        };
        assert(op == sum_op(t@, j as int));
        match op {
            None => return Ok((lhs, j)),
            Some(operator) => {
                let (rhs, k) = match parse_product(t, j + 1) {
                    Ok(x) => x,
                    Err(x) => return Err(x),
                };
                let location = Location(lhs.location.0, rhs.location.1);
                lhs = ExpressionKind::BinaryOperation { lhs, operator, rhs }.with_loc(location);
                j = k;
            },
        }
    }
}

fn parse_statement(t: &Vec<Spanned>, i: usize) -> (r: Result<(Statement, usize), (Message, usize)>)
    requires
        i < t@.len(),
    ensures
        stmt_parsed(r) == statement(t@, i as int),
        r matches Ok((_, j)) ==> i < j <= t@.len(),
        r matches Err((_, j)) ==> i <= j <= t@.len(),
{
    let n = t.len();
    let (start, body_start, name) = match &t[i] {
        Ok((s, Token::KeywordVar, _)) => {
            let name = if i + 1 < t.len() {
                match &t[i + 1] {
                    Ok((_, Token::Identifier(n), _)) => n.clone(),
                    _ => return Err((fail(t, i + 1, Expect::Name), i + 1)),
                }
            } else {
                return Err((fail(t, i + 1, Expect::Name), i + 1));
            };
            if !(i + 2 < t.len() && matches!(t[i + 2], Ok((_, Token::Assign, _)))) {
                return Err((fail(t, i + 2, Expect::Assign), i + 2));
            }
            (*s, i + 3, Some(name))
        },
        Ok((s, Token::KeywordPrint, _)) => (*s, i + 1, None),
        _ => return Err((fail(t, i, Expect::Statement), i)),
    };
    let (value, j) = match parse_sum(t, body_start) {
        Ok(x) => x,
        Err(x) => return Err(x),
    };
    if !at_semicolon(t, j) {
        return Err((fail(t, j, Expect::StatementEnd), j));
    }
    let location = Location(start, item_loc(&t[j]).1);
    let kind = match name {
        Some(name) => StatementKind::Variable { name, value },
        None => StatementKind::Print { value },
    };
    Ok((kind.with_loc(location), j + 1))
}

/// Parses a token stream into statements. A statement with a syntax or
/// lexical error becomes an error node that spans through the next `;` (or
/// to the end of input), and parsing goes on after it. If the first
/// statement fails with no `;` after it, the parse fails with that
/// statement's diagnostic and no tree.
pub fn parse(t: &Vec<Spanned>) -> (r: Result<Vec<Statement>, Message>)
    ensures
        (match r {
            Ok(v) => Ok(stmts_view(v@)),
            Err(m) => Err(m@),
        }) == script(t@, 0),
{
    let mut out: Vec<Statement> = Vec::new();
    let mut i: usize = 0;
    while i < t.len()
        invariant
            i <= t@.len(),
            script(t@, 0) == (match script(t@, i as int) {
                Ok(rest) => Ok(stmts_view(out@) + rest),
                Err(m) => Err(m),
            }),
        decreases t@.len() - i,
    {
        let ghost before = out@;
        match parse_statement(t, i) {
            Ok((st, j)) => {
                assert(script(t@, i as int) == match script(t@, j as int) {
                    Ok(rest) => Ok(seq![st@] + rest),
                    Err(m) => Err(m),
                });
                out.push(st);
                assert(stmts_view(out@) =~= stmts_view(before) + seq![out@.last()@]);
                i = j;
                proof {
                    if let Ok(rest) = script(t@, i as int) {
                        assert(stmts_view(before) + (seq![out@.last()@] + rest) =~= stmts_view(out@)
                            + rest);
                    }
                }
            },
            Err((m, j)) => {
                let mut k = j;
                while k < t.len() && !at_semicolon(t, k)
                    invariant
                        j <= k <= t@.len(),
                        next_semicolon(t@, j as int) == next_semicolon(t@, k as int),
                    decreases t@.len() - k,
                {
                    k = k + 1;
                }
                if k >= t.len() {
                    if i == 0 {
                        return Err(m);
                    }
                    let location = Location(item_loc(&t[i]).0, input_end_of(t));
                    let ghost mm = m@;
                    assert(script(t@, i as int) == match script(t@, t@.len() as int) {
                        Ok(rest) => Ok(seq![StmtModel::Error(location, mm)] + rest),
                        Err(m) => Err(m),
                    });
                    out.push(StatementKind::Error(m).with_loc(location));
                    assert(stmts_view(out@) =~= stmts_view(before) + seq![out@.last()@]);
                    i = t.len();
                    proof {
                        if let Ok(rest) = script(t@, i as int) {
                            assert(stmts_view(before) + (seq![out@.last()@] + rest) =~= stmts_view(
                                out@,
                            ) + rest);
                        }
                    }
                    continue;
                }
                let location = Location(item_loc(&t[i]).0, item_loc(&t[k]).1);
                let ghost mm = m@;
                assert(next_semicolon(t@, k as int) == k);
                assert(script(t@, i as int) == match script(t@, k + 1) {
                    Ok(rest) => Ok(seq![StmtModel::Error(location, mm)] + rest),
                    Err(m) => Err(m),
                });
                out.push(StatementKind::Error(m).with_loc(location));
                assert(stmts_view(out@) =~= stmts_view(before) + seq![out@.last()@]);
                i = k + 1;
                proof {
                    if let Ok(rest) = script(t@, i as int) {
                        assert(stmts_view(before) + (seq![out@.last()@] + rest) =~= stmts_view(out@)
                            + rest);
                    }
                }
            },
        }
    }
    assert(stmts_view(out@) + seq![] =~= stmts_view(out@));
    Ok(out)
}

} // verus!
