use toyscript::ast::{Expression, ExpressionKind, Location, Operator, Statement, StatementKind};
use toyscript::exec::execute;
use toyscript::interpreter::interpret;
use toyscript::lexer::{tokenize, Lexer, Spanned};
use toyscript::parser::parse;
use toyscript::reporting::{Message, ParseError, RawParseError, WriteDiagnostic};
use toyscript::tokens::{IntegerOverflow, LexicalError, Token};

fn tokens_of(source: &str) -> Vec<Token> {
    tokenize(source).into_iter().map(|item| item.unwrap().1).collect()
}

fn parse_source(source: &str) -> Result<Vec<Statement>, Message> {
    parse(&tokenize(source))
}

fn run_source(source: &str) -> (Vec<i64>, Result<(), Message>) {
    let mut output = Vec::new();
    let result = interpret(source, &mut output);
    (output, result)
}

fn lit(value: i64, start: usize, end: usize) -> Box<Expression> {
    ExpressionKind::Integer(value).with_loc(Location(start, end))
}

fn binary(lhs: Box<Expression>, operator: Operator, rhs: Box<Expression>) -> Box<Expression> {
    let location = Location(lhs.location.0, rhs.location.1);
    ExpressionKind::BinaryOperation { lhs, operator, rhs }.with_loc(location)
}

fn names(list: &[&str]) -> Vec<String> {
    list.iter().map(|s| s.to_string()).collect()
}

#[test]
fn lexes_single_integer() {
    let items = tokenize("123");
    assert_eq!(items, vec![Ok((0, Token::Integer("123".to_string()), 3))]);
}

#[test]
fn lexes_variable_statement() {
    let items = tokenize("var x = 1;");
    let expected: Vec<Spanned> = vec![
        Ok((0, Token::KeywordVar, 3)),
        Ok((4, Token::Identifier("x".to_string()), 5)),
        Ok((6, Token::Assign, 7)),
        Ok((8, Token::Integer("1".to_string()), 9)),
        Ok((9, Token::Semicolon, 10)),
    ];
    assert_eq!(items, expected);
    let spans: Vec<(usize, usize)> = items.iter().map(|i| {
        let (s, _, e) = i.as_ref().unwrap();
        (*s, *e)
    }).collect();
    for w in spans.windows(2) {
        assert!(w[0].0 < w[0].1 && w[0].1 <= w[1].0);
    }
}

#[test]
fn lexer_skips_blanks_and_comments() {
    let tokens = tokens_of("  print\t(a) # a comment ; here\n\x0c* b_2");
    assert_eq!(
        tokens,
        vec![
            Token::KeywordPrint,
            Token::LParen,
            Token::Identifier("a".to_string()),
            Token::RParen,
            Token::OperatorMul,
            Token::Identifier("b_2".to_string()),
        ]
    );
}

#[test]
fn lexer_keywords_need_exact_match() {
    let tokens = tokens_of("variable printer var print _var");
    assert_eq!(
        tokens,
        vec![
            Token::Identifier("variable".to_string()),
            Token::Identifier("printer".to_string()),
            Token::KeywordVar,
            Token::KeywordPrint,
            Token::Identifier("_var".to_string()),
        ]
    );
}

#[test]
fn lexer_reads_signed_literals() {
    assert_eq!(tokens_of("-5"), vec![Token::Integer("-5".to_string())]);
    assert_eq!(
        tokens_of("5-1"),
        vec![Token::Integer("5".to_string()), Token::Integer("-1".to_string())]
    );
    assert_eq!(
        tokens_of("5 - x + / ="),
        vec![
            Token::Integer("5".to_string()),
            Token::OperatorSub,
            Token::Identifier("x".to_string()),
            Token::OperatorAdd,
            Token::OperatorDiv,
            Token::Assign,
        ]
    );
}

#[test]
fn lexer_advances_past_invalid_input() {
    let items = tokenize("@x\r\u{e9};");
    assert_eq!(
        items,
        vec![
            Err((LexicalError::InvalidToken, Location(0, 1))),
            Ok((1, Token::Identifier("x".to_string()), 2)),
            Err((LexicalError::InvalidToken, Location(2, 3))),
            Err((LexicalError::InvalidToken, Location(3, 5))),
            Ok((5, Token::Semicolon, 6)),
        ]
    );
}

#[test]
fn lexer_next_token_walks_the_stream() {
    let mut lexer = Lexer::new("x #tail");
    assert_eq!(lexer.next_token(), Some(Ok((0, Token::Identifier("x".to_string()), 1))));
    assert_eq!(lexer.next_token(), None);
    assert_eq!(tokenize("   # only a comment"), vec![]);
}

#[test]
fn parses_multiplication_tighter_than_addition() {
    let ast = parse_source("print 1 + 2 * 3;").unwrap();
    let value = binary(lit(1, 6, 7), Operator::Add, binary(lit(2, 10, 11), Operator::Mul, lit(3, 14, 15)));
    assert_eq!(ast, vec![StatementKind::Print { value }.with_loc(Location(0, 16))]);
}

#[test]
fn parses_left_grouping_and_parentheses() {
    let ast = parse_source("print 1 - 2 - 3;").unwrap();
    let value = binary(binary(lit(1, 6, 7), Operator::Sub, lit(2, 10, 11)), Operator::Sub, lit(3, 14, 15));
    assert_eq!(ast, vec![StatementKind::Print { value }.with_loc(Location(0, 16))]);

    let ast = parse_source("print (1 - 2) * 3;").unwrap();
    let value = binary(binary(lit(1, 7, 8), Operator::Sub, lit(2, 11, 12)), Operator::Mul, lit(3, 16, 17));
    assert_eq!(ast, vec![StatementKind::Print { value }.with_loc(Location(0, 18))]);
}

#[test]
fn parses_variable_statement() {
    let ast = parse_source("var x = 1;").unwrap();
    assert_eq!(
        ast,
        vec![StatementKind::Variable { name: "x".to_string(), value: lit(1, 8, 9) }
            .with_loc(Location(0, 10))]
    );
}

#[test]
fn out_of_range_literal_becomes_error_node() {
    let ast = parse_source("print 9223372036854775808;").unwrap();
    let location = Location(6, 25);
    let error = Message::lexer_error(LexicalError::InvalidInteger(IntegerOverflow::Positive), location);
    let value = ExpressionKind::Error(error).with_loc(location);
    assert_eq!(ast, vec![StatementKind::Print { value }.with_loc(Location(0, 26))]);

    let ast = parse_source("print -9223372036854775809;").unwrap();
    match &ast[0].kind {
        StatementKind::Print { value } => assert_eq!(
            value.kind,
            ExpressionKind::Error(Message::lexer_error(
                LexicalError::InvalidInteger(IntegerOverflow::Negative),
                Location(6, 26)
            ))
        ),
        other => panic!("unexpected statement {other:?}"),
    }
    let (output, result) = run_source("print -9223372036854775808; print 9223372036854775807;");
    assert_eq!(output, vec![i64::MIN, i64::MAX]);
    assert_eq!(result, Ok(()));
}

#[test]
fn executes_assignment_then_print() {
    let (output, result) = run_source("var x = 5;\nprint x + 1;");
    assert_eq!(output, vec![6]);
    assert_eq!(result, Ok(()));
}

#[test]
fn later_assignment_overwrites() {
    let (output, result) = run_source("var x = 1; var x = x * 10; print x; print x - 3;");
    assert_eq!(output, vec![10, 7]);
    assert_eq!(result, Ok(()));
}

#[test]
fn unknown_variable_halts() {
    let (output, result) = run_source("print y;");
    assert_eq!(output, vec![]);
    assert_eq!(result, Err(Message::UnknownVariable("y".to_string(), Location(6, 7))));
}

#[test]
fn prints_before_failure_are_kept() {
    let (output, result) = run_source("print 1; print z; print 2;");
    assert_eq!(output, vec![1]);
    assert_eq!(result, Err(Message::UnknownVariable("z".to_string(), Location(15, 16))));
}

#[test]
fn missing_semicolon_becomes_error_statement() {
    let source = "var x = 1\nprint x;";
    let ast = parse_source(source).unwrap();
    let expected = Message::ParseError(Box::new(ParseError::UnrecognisedToken {
        location: Location(10, 15),
        token: "KeywordPrint".to_string(),
        expected: names(&["\"*\"", "\"+\"", "\"-\"", "\"/\"", "\";\""]),
    }));
    assert_eq!(ast, vec![StatementKind::Error(expected.clone()).with_loc(Location(0, 18))]);
    let (output, result) = run_source(source);
    assert_eq!(output, vec![]);
    assert_eq!(result, Err(expected));
}

#[test]
fn recovery_resumes_after_semicolon() {
    let ast = parse_source("print ); print 4;").unwrap();
    assert_eq!(ast.len(), 2);
    assert!(matches!(ast[0].kind, StatementKind::Error(_)));
    assert_eq!(ast[0].location, Location(0, 8));
    assert_eq!(ast[1].location, Location(9, 17));
}

#[test]
fn unterminated_input_fails_whole_parse() {
    let result = parse_source("var x = 1");
    assert_eq!(
        result,
        Err(Message::ParseError(Box::new(ParseError::UnrecognizedEof {
            location: Location(9, 9),
            expected: names(&["\"*\"", "\"+\"", "\"-\"", "\"/\"", "\";\""]),
        })))
    );
    assert_eq!(parse_source(""), Ok(vec![]));
}

#[test]
fn lexical_error_inside_statement_is_reported() {
    let result = parse_source("print @;");
    let ast = result.unwrap();
    assert_eq!(
        ast[0].kind,
        StatementKind::Error(Message::lexer_error(LexicalError::InvalidToken, Location(6, 7)))
    );
}

#[test]
fn division_truncates_toward_zero() {
    assert_eq!(run_source("print 7 / 2;").0, vec![3]);
    assert_eq!(run_source("print -7 / 2;").0, vec![-3]);
    assert_eq!(run_source("print 7 / -2;").0, vec![-3]);
    assert_eq!(run_source("print -9223372036854775808 / -1;").0, vec![i64::MIN]);
}

#[test]
fn division_by_zero_is_a_runtime_error() {
    let (output, result) = run_source("print 1; print 5 / (2 - 2);");
    assert_eq!(output, vec![1]);
    assert_eq!(result, Err(Message::DivisionByZero(Location(15, 25))));
}

#[test]
fn arithmetic_wraps_on_overflow() {
    assert_eq!(run_source("print 9223372036854775807 + 1;").0, vec![i64::MIN]);
    assert_eq!(run_source("print -9223372036854775808 - 1;").0, vec![i64::MAX]);
    assert_eq!(run_source("print 4611686018427387904 * 2;").0, vec![i64::MIN]);
}

#[test]
fn raw_errors_become_messages() {
    let m = Message::from_lalrpop(RawParseError::User { error: LexicalError::InvalidToken }, None);
    assert_eq!(m, Message::lexer_error(LexicalError::InvalidToken, Location(0, 0)));
    let m = Message::from_lalrpop(
        RawParseError::User { error: LexicalError::InvalidToken },
        Some(Location(3, 4)),
    );
    assert_eq!(m, Message::lexer_error(LexicalError::InvalidToken, Location(3, 4)));
    let m = Message::from_lalrpop(RawParseError::InvalidToken { location: 7 }, None);
    assert_eq!(m, Message::lexer_error(LexicalError::InvalidToken, Location(7, 7)));
    let m = Message::from_lalrpop(
        RawParseError::ExtraToken { token: (2, Token::Identifier("q".to_string()), 3) },
        None,
    );
    assert_eq!(
        m,
        Message::ParseError(Box::new(ParseError::ExtraToken {
            location: Location(2, 3),
            token: "Identifier(\"q\")".to_string(),
        }))
    );
    let m = Message::from_lalrpop(
        RawParseError::UnrecognizedEof { location: 5, expected: names(&["\";\""]) },
        None,
    );
    assert_eq!(
        m,
        Message::ParseError(Box::new(ParseError::UnrecognizedEof {
            location: Location(5, 5),
            expected: names(&["\";\""]),
        }))
    );
}

#[test]
fn token_and_error_descriptions() {
    assert_eq!(Token::Integer("12".to_string()).describe(), "Integer(\"12\")");
    assert_eq!(Token::Semicolon.describe(), "Semicolon");
    assert_eq!(LexicalError::InvalidToken.description(), "Invalid token");
    assert_eq!(
        LexicalError::InvalidInteger(IntegerOverflow::Positive).description(),
        "number too large to fit in target type"
    );
    assert_eq!(Location(2, 5).as_range(), 2..5);
}

fn render(message: &Message, source: &str, colour: bool) -> String {
    String::from_utf8(message.write_diagnostic(source, colour)).unwrap()
}

#[test]
fn renders_unknown_variable_report() {
    let source = "print y;";
    let message = Message::UnknownVariable("y".to_string(), Location(6, 7));
    let text = render(&message, source, false);
    assert!(text.contains("Error: Unknown variable y"));
    assert!(text.contains("print y;"));
    assert!(text.contains("myscript.toy"));
    assert!(!text.contains('\u{1b}'));
    assert!(render(&message, source, true).contains("Unknown variable y"));
}

#[test]
fn rendering_twice_gives_same_bytes() {
    let source = "var x = 1\nprint x;";
    let message = parse_source("var x = 1").unwrap_err();
    for colour in [false, true] {
        let first = message.write_diagnostic(source, colour);
        let second = message.write_diagnostic(source, colour);
        assert_eq!(first, second);
    }
}

#[test]
fn renders_notes_and_expected_tokens() {
    let eof = parse_source("var x = 1").unwrap_err();
    let text = render(&eof, "var x = 1", false);
    assert!(text.contains("Unexpected end of file"));
    assert!(text.contains("Note: expected one of tokens \"*\", \"+\", \"-\", \"/\", \";\""));

    let big = Message::lexer_error(LexicalError::InvalidInteger(IntegerOverflow::Positive), Location(6, 25));
    let text = render(&big, "print 9223372036854775808;", false);
    assert!(text.contains("number too large to fit in target type"));
    assert!(text.contains("Larger than maximum positive number which is 9223372036854775807"));
}

#[test]
fn report_spans_are_clamped() {
    let message = Message::UnknownVariable("v".to_string(), Location(40, 3));
    let report = message.report(8);
    assert_eq!(report.location, Location(8, 8));
    assert_eq!(report.label, "Unknown variable");
    let text = render(&message, "print v;", false);
    assert!(text.contains("Unknown variable v"));
}

#[test]
fn execute_runs_a_parsed_tree() {
    let ast = parse_source("var a = 2; print a * a; print (a + 1) / 2;").unwrap();
    let mut output = vec![99];
    assert_eq!(execute(ast, &mut output), Ok(()));
    assert_eq!(output, vec![99, 4, 1]);
}

#[test]
fn unterminated_last_statement_becomes_error_node() {
    let ast = parse_source("print 1; print 2").unwrap();
    assert_eq!(ast.len(), 2);
    assert_eq!(
        ast[1],
        StatementKind::Error(Message::ParseError(Box::new(ParseError::UnrecognizedEof {
            location: Location(16, 16),
            expected: names(&["\"*\"", "\"+\"", "\"-\"", "\"/\"", "\";\""]),
        })))
        .with_loc(Location(9, 16))
    );
    let (output, result) = run_source("print 1; print 2");
    assert_eq!(output, vec![1]);
    assert!(matches!(result, Err(Message::ParseError(_))));
}

#[test]
fn every_report_has_a_headline() {
    let extra = Message::ParseError(Box::new(ParseError::ExtraToken {
        location: Location(0, 1),
        token: "Semicolon".to_string(),
    }));
    assert_eq!(extra.report(3).message, "Unexpected extra token Semicolon");
    assert!(render(&extra, "; x", false).contains("Error: Unexpected extra token Semicolon"));
    let invalid = Message::lexer_error(LexicalError::InvalidToken, Location(0, 1));
    assert_eq!(invalid.report(1).message, "Invalid token");
    assert!(render(&invalid, "@", false).contains("Error: Invalid token"));
}

#[test]
fn lexical_error_converts_to_error_expression() {
    let kind = ExpressionKind::from(LexicalError::InvalidToken);
    assert_eq!(
        kind,
        ExpressionKind::Error(Message::lexer_error(LexicalError::InvalidToken, Location(0, 0)))
    );
}

#[test]
fn lexemes_fit_in_the_source_and_match_their_slices() {
    let source = "var é1 = 12 # note\n@@ print(x_1)-3;;";
    let items = tokenize(source);
    let mut total = 0;
    let mut last_end = 0;
    for item in &items {
        let (s, e) = match item {
            Ok((s, _, e)) => (*s, *e),
            Err((_, l)) => (l.0, l.1),
        };
        assert!(last_end <= s && s < e && e <= source.len());
        total += e - s;
        last_end = e;
        if let Ok((_, Token::Identifier(text) | Token::Integer(text), _)) = item {
            assert_eq!(text.as_str(), &source[s..e]);
        }
    }
    assert!(total <= source.len());
}
