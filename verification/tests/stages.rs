use eva::balance::{autobalance_parens, normalize};
use eva::error::CalcError;
use eva::eval::check_postfix;
use eva::lex::lexer;
use eva::parse::to_postfix;
use eva::token::{ConstKind, FnKind, OpKind, Token};

fn chars_of(s: &str) -> Vec<char> {
    s.chars().collect()
}

fn text_of(v: &[char]) -> String {
    v.iter().collect()
}

#[test]
fn balance_appends_missing_closes() {
    let out = autobalance_parens(chars_of("sin(30) + tan(45")).unwrap();
    assert_eq!("sin(30) + tan(45)", text_of(&out));
    let untouched = autobalance_parens(chars_of("(1+2)")).unwrap();
    assert_eq!("(1+2)", text_of(&untouched));
    let two = autobalance_parens(chars_of("((1")).unwrap();
    assert_eq!("((1))", text_of(&two));
}

#[test]
fn balance_rejects_early_close() {
    assert!(match autobalance_parens(chars_of("exp2,3)")) {
        Err(CalcError::Syntax(m)) => {
            assert_eq!("Mismatched parentheses!", m);
            true
        }
        _ => false,
    });
}

#[test]
fn normalize_strips_spaces_and_trims() {
    assert_eq!("6*2+3", text_of(&normalize(&chars_of(" 6*2 + 3 \t"))));
    assert_eq!("", text_of(&normalize(&chars_of("  \t "))));
}

#[test]
fn lexer_splits_constant_and_digits() {
    let tokens = lexer(&chars_of("e2"), false).unwrap();
    assert_eq!(
        vec![
            Token::Constant(ConstKind::E),
            Token::Operator(OpKind::Mul),
            Token::Number(vec!['2']),
        ],
        tokens
    );
}

#[test]
fn lexer_keeps_digits_in_function_names() {
    let tokens = lexer(&chars_of("log10(8)"), false).unwrap();
    assert_eq!(
        vec![
            Token::Function(FnKind::Log10),
            Token::LParen,
            Token::Number(vec!['8']),
            Token::RParen,
        ],
        tokens
    );
}

#[test]
fn lexer_inserts_implicit_multiplication() {
    let tokens = lexer(&chars_of("2(3)"), false).unwrap();
    assert_eq!(
        vec![
            Token::Number(vec!['2']),
            Token::Operator(OpKind::Mul),
            Token::LParen,
            Token::Number(vec!['3']),
            Token::RParen,
        ],
        tokens
    );
}

#[test]
fn lexer_reads_double_star_as_power() {
    let tokens = lexer(&chars_of("2**3"), false).unwrap();
    assert_eq!(
        vec![
            Token::Number(vec!['2']),
            Token::Operator(OpKind::Pow),
            Token::Number(vec!['3']),
        ],
        tokens
    );
}

#[test]
fn lexer_substitutes_prev_answer_token() {
    let tokens = lexer(&chars_of("_+1"), true).unwrap();
    assert_eq!(
        vec![
            Token::PrevAns,
            Token::Operator(OpKind::Add),
            Token::Number(vec!['1']),
        ],
        tokens
    );
    assert!(matches!(
        lexer(&chars_of("_+1"), false),
        Err(CalcError::Lexer(_))
    ));
}

#[test]
fn parser_orders_postfix_right_associatively() {
    let tokens = lexer(&chars_of("2^3^2"), false).unwrap();
    let postfix = to_postfix(tokens).unwrap();
    assert_eq!(
        vec![
            Token::Number(vec!['2']),
            Token::Number(vec!['3']),
            Token::Number(vec!['2']),
            Token::Operator(OpKind::Pow),
            Token::Operator(OpKind::Pow),
        ],
        postfix
    );
}

#[test]
fn parser_respects_precedence() {
    let tokens = lexer(&chars_of("1+2*3"), false).unwrap();
    let postfix = to_postfix(tokens).unwrap();
    assert_eq!(
        vec![
            Token::Number(vec!['1']),
            Token::Number(vec!['2']),
            Token::Number(vec!['3']),
            Token::Operator(OpKind::Mul),
            Token::Operator(OpKind::Add),
        ],
        postfix
    );
}

#[test]
fn parser_rejects_single_argument_two_arg_fn() {
    let tokens = lexer(&chars_of("log(16)"), false).unwrap();
    assert!(match to_postfix(tokens) {
        Err(CalcError::Parser(m)) => {
            assert_eq!("Too few arguments (1) for function log (requires 2)!", m);
            true
        }
        _ => false,
    });
}

#[test]
fn postfix_check_counts_operands() {
    let good = vec![
        Token::Number(vec!['1']),
        Token::Number(vec!['2']),
        Token::Operator(OpKind::Add),
    ];
    assert!(check_postfix(&good).is_ok());
    let underflow = vec![Token::Number(vec!['1']), Token::Operator(OpKind::Add)];
    assert!(match check_postfix(&underflow) {
        Err(CalcError::Parser(m)) => {
            assert_eq!("Too many operators, Too little operands", m);
            true
        }
        _ => false,
    });
    let leftovers = vec![Token::Number(vec!['1']), Token::Number(vec!['2'])];
    assert!(check_postfix(&leftovers).is_err());
    let empty: Vec<Token> = vec![];
    assert!(check_postfix(&empty).is_err());
}

#[test]
fn error_messages_are_exposed() {
    let err = CalcError::Syntax("Mismatched parentheses!".to_string());
    assert_eq!("Mismatched parentheses!", err.message());
}
