use frag_compiler::ir::RunResult;
use frag_compiler::lexer::LexError;
use frag_compiler::lexer::Lexer;
use frag_compiler::lexer::Token;
use frag_compiler::lower::run_program;
use frag_compiler::parser::CompilerError;
use frag_compiler::parser::Parser;

fn run(src: &str) -> RunResult {
    let lexer = Lexer::new(src);
    let mut parser = Parser::new(lexer);
    let prog = parser.parse_program().expect("parse failed");
    run_program(&prog).expect("compile failed")
}

fn result_of(src: &str) -> i64 {
    match run(src) {
        RunResult::Done { result, .. } => result,
        RunResult::Trapped { .. } => panic!("unexpected trap"),
    }
}

fn prints_of(src: &str) -> Vec<i64> {
    match run(src) {
        RunResult::Done { prints, .. } => prints,
        RunResult::Trapped { .. } => panic!("unexpected trap"),
    }
}

fn tokens_of(src: &str) -> Vec<Token> {
    let mut lexer = Lexer::new(src);
    lexer.tokenize().expect("lexing failed")
}

#[test]
fn lexing_is_deterministic() {
    let src = "let x = 1; // c\n x + 2 * (3 - 4) && true || !false";
    assert_eq!(tokens_of(src), tokens_of(src));
    assert_eq!(tokens_of(""), vec![Token::Eof]);
}

#[test]
fn lexes_simple_tokens() {
    assert_eq!(
        tokens_of("let x = 10;"),
        vec![
            Token::Let,
            Token::Identifier("x".to_string()),
            Token::Equal,
            Token::Number(10),
            Token::Semicolon,
            Token::Eof
        ]
    );
}

#[test]
fn lexes_two_char_operators() {
    assert_eq!(
        tokens_of("== != <= >= && || < > = !"),
        vec![
            Token::EqualEqual,
            Token::NotEqual,
            Token::LessEqual,
            Token::GreaterEqual,
            Token::AndAnd,
            Token::OrOr,
            Token::Less,
            Token::Greater,
            Token::Equal,
            Token::Not,
            Token::Eof
        ]
    );
}

#[test]
fn unpaired_amp_and_pipe_are_dropped() {
    assert_eq!(
        tokens_of("1 & 2 | 3"),
        vec![Token::Number(1), Token::Number(2), Token::Number(3), Token::Eof]
    );
}

#[test]
fn unknown_characters_are_dropped() {
    assert_eq!(tokens_of("1 @ $ 2"), vec![Token::Number(1), Token::Number(2), Token::Eof]);
}

#[test]
fn int64_max_literal_lexes_and_evaluates() {
    assert_eq!(
        tokens_of("9223372036854775807"),
        vec![Token::Number(i64::MAX), Token::Eof]
    );
    assert_eq!(result_of("9223372036854775807"), i64::MAX);
}

#[test]
fn literal_beyond_int64_max_is_a_lexer_error() {
    let mut lexer = Lexer::new("9223372036854775808");
    assert_eq!(lexer.tokenize(), Err(LexError::NumberOverflow));
    let lexer2 = Lexer::new("9223372036854775808");
    let mut parser = Parser::new(lexer2);
    assert_eq!(parser.parse_program(), Err(CompilerError::NumberOverflow));
}

#[test]
fn empty_input_produces_zero() {
    assert_eq!(result_of(""), 0);
    assert_eq!(prints_of(""), Vec::<i64>::new());
}

#[test]
fn trailing_semicolon_is_a_parse_error() {
    let lexer = Lexer::new("1;");
    let mut parser = Parser::new(lexer);
    assert_eq!(
        parser.parse_program(),
        Err(CompilerError::UnexpectedToken(Token::Eof))
    );
}

#[test]
fn single_literal_program() {
    assert_eq!(result_of("42"), 42);
    assert_eq!(prints_of("42"), Vec::<i64>::new());
}

#[test]
fn let_bindings_and_addition() {
    assert_eq!(result_of("let x = 10; let y = 20; x + y"), 30);
}

#[test]
fn print_returns_its_argument_and_prints() {
    let r = run("print(7); print(8)");
    assert_eq!(
        r,
        RunResult::Done { result: 8, prints: vec![7, 8] }
    );
}

#[test]
fn multiplication_binds_tighter_than_addition() {
    assert_eq!(result_of("1 + 2 * 3"), 7);
}

#[test]
fn parentheses_override_precedence() {
    assert_eq!(result_of("(1 + 2) * 3"), 9);
}

#[test]
fn not_zero_equals_true() {
    assert_eq!(result_of("!0 == true"), 1);
}

#[test]
fn comparisons_and_logical_and() {
    assert_eq!(result_of("let a = 5; a < 10 && a > 0"), 1);
}

#[test]
fn double_negation() {
    assert_eq!(result_of("-(-3)"), 3);
}

#[test]
fn remainder() {
    assert_eq!(result_of("10 % 3"), 1);
}

#[test]
fn comments_of_both_kinds() {
    assert_eq!(result_of("# comment\nlet x = 1; // comment\nx + 1"), 2);
}

#[test]
fn let_shadowing_is_observable() {
    assert_eq!(result_of("let x = 1; let x = 2; x"), 2);
}

#[test]
fn booleans_lower_to_zero_and_one() {
    assert_eq!(result_of("true"), 1);
    assert_eq!(result_of("false"), 0);
    assert_eq!(result_of("3 < 2"), 0);
    assert_eq!(result_of("2 == 2"), 1);
    assert_eq!(result_of("!5"), 0);
    assert_eq!(result_of("!0"), 1);
}

#[test]
fn logical_operators_do_not_short_circuit() {
    let r = run("false && print(1) != 0; true || print(2) != 0");
    assert_eq!(
        r,
        RunResult::Done { result: 1, prints: vec![1, 2] }
    );
}

#[test]
fn left_associativity_within_a_level() {
    assert_eq!(result_of("10 - 3 - 2"), 5);
    assert_eq!(result_of("100 / 10 / 2"), 5);
}

#[test]
fn division_by_zero_traps() {
    let r = run("print(3); 1 / 0");
    assert_eq!(r, RunResult::Trapped { prints: vec![3] });
    let r2 = run("10 % 0");
    assert_eq!(r2, RunResult::Trapped { prints: vec![] });
}

#[test]
fn min_divided_by_minus_one_traps() {
    let r = run("let m = 0 - 9223372036854775807 - 1; m / (0 - 1)");
    assert_eq!(r, RunResult::Trapped { prints: vec![] });
}

#[test]
fn wrapping_arithmetic() {
    assert_eq!(result_of("9223372036854775807 + 1"), i64::MIN);
    assert_eq!(result_of("-9223372036854775807 - 2"), i64::MAX);
}

#[test]
fn undefined_variable_is_a_codegen_error() {
    let lexer = Lexer::new("x + 1");
    let mut parser = Parser::new(lexer);
    let prog = parser.parse_program().expect("parse failed");
    assert_eq!(
        run_program(&prog),
        Err(frag_compiler::lower::LowerError::UndefinedVariable("x".to_string()))
    );
}

#[test]
fn unknown_function_is_a_codegen_error() {
    let lexer = Lexer::new("foo(1)");
    let mut parser = Parser::new(lexer);
    let prog = parser.parse_program().expect("parse failed");
    assert_eq!(
        run_program(&prog),
        Err(frag_compiler::lower::LowerError::UnknownFunction("foo".to_string()))
    );
}

#[test]
fn print_arity_is_checked() {
    let lexer = Lexer::new("print(1, 2)");
    let mut parser = Parser::new(lexer);
    let prog = parser.parse_program().expect("parse failed");
    assert_eq!(
        run_program(&prog),
        Err(frag_compiler::lower::LowerError::PrintArity)
    );
}

#[test]
fn missing_semicolon_is_a_parse_error() {
    let lexer = Lexer::new("1 2");
    let mut parser = Parser::new(lexer);
    assert_eq!(
        parser.parse_program(),
        Err(CompilerError::ExpectedToken(Token::Semicolon, Token::Number(2)))
    );
}

#[test]
fn let_requires_identifier_and_equal() {
    let lexer = Lexer::new("let 1 = 2");
    let mut parser = Parser::new(lexer);
    assert_eq!(
        parser.parse_program(),
        Err(CompilerError::ExpectedIdentifier(Token::Number(1)))
    );
    let lexer2 = Lexer::new("let x 2");
    let mut parser2 = Parser::new(lexer2);
    assert_eq!(
        parser2.parse_program(),
        Err(CompilerError::ExpectedToken(Token::Equal, Token::Number(2)))
    );
}

#[test]
fn unclosed_parenthesis_is_a_parse_error() {
    let lexer = Lexer::new("(1 + 2");
    let mut parser = Parser::new(lexer);
    assert_eq!(
        parser.parse_program(),
        Err(CompilerError::ExpectedToken(Token::RightParen, Token::Eof))
    );
}

#[test]
fn keywords_are_not_identifiers() {
    assert_eq!(tokens_of("let true false lettuce"), vec![
        Token::Let,
        Token::Bool(true),
        Token::Bool(false),
        Token::Identifier("lettuce".to_string()),
        Token::Eof
    ]);
}

#[test]
fn print_inside_expressions_fires_left_to_right() {
    let r = run("print(1) + print(2) * print(3)");
    assert_eq!(
        r,
        RunResult::Done { result: 7, prints: vec![1, 2, 3] }
    );
}
