use eva::error::CalcError;
use eva::eval::{compile, Compiled};
use eva::token::{ConstKind, FnKind, OpKind, Token};

/// Evaluate an expression end to end: compile through the verified
/// pipeline, then run the floating-point arithmetic over the returned
/// postfix program and round to `fix` decimal places.
fn eval_fixed(input: &str, prev_ans: Option<f64>, fix: usize) -> Result<f64, CalcError> {
    let radian_mode = false;
    let compiled = compile(input, prev_ans.is_some())?;
    let val = match compiled {
        Compiled::Empty => 0.0,
        Compiled::Program(tokens) => {
            let mut stack: Vec<f64> = Vec::new();
            for t in tokens {
                match t {
                    Token::Number(cs) => {
                        let text: String = cs.iter().collect();
                        stack.push(text.parse::<f64>().unwrap());
                    }
                    Token::PrevAns => stack.push(prev_ans.unwrap()),
                    Token::Constant(c) => stack.push(match c {
                        ConstKind::E => std::f64::consts::E,
                        ConstKind::Pi => std::f64::consts::PI,
                    }),
                    Token::Operator(op) => {
                        if op == OpKind::Neg {
                            let x = stack.pop().unwrap();
                            stack.push(-x);
                        } else {
                            let b = stack.pop().unwrap();
                            let a = stack.pop().unwrap();
                            stack.push(match op {
                                OpKind::Add => a + b,
                                OpKind::Sub => a - b,
                                OpKind::Mul => a * b,
                                OpKind::Div => a / b,
                                OpKind::Pow => a.powf(b),
                                OpKind::Neg => unreachable!(),
                            });
                        }
                    }
                    Token::Function(f) => {
                        let two_args = matches!(
                            f,
                            FnKind::Nroot | FnKind::Log | FnKind::Min | FnKind::Max
                        );
                        if two_args {
                            let b = stack.pop().unwrap();
                            let a = stack.pop().unwrap();
                            stack.push(match f {
                                FnKind::Nroot => a.powf(1.0 / b),
                                FnKind::Log => a.log(b),
                                FnKind::Min => a.min(b),
                                FnKind::Max => a.max(b),
                                _ => unreachable!(),
                            });
                        } else {
                            let x = stack.pop().unwrap();
                            let angle = if radian_mode { x } else { x.to_radians() };
                            stack.push(match f {
                                FnKind::Sin => angle.sin(),
                                FnKind::Cos => angle.cos(),
                                FnKind::Tan => angle.tan(),
                                FnKind::Asin => x.asin(),
                                FnKind::Acos => x.acos(),
                                FnKind::Atan => x.atan(),
                                FnKind::Deg => x.to_degrees(),
                                FnKind::Rad => x.to_radians(),
                                FnKind::Sqrt => x.sqrt(),
                                FnKind::Cbrt => x.cbrt(),
                                FnKind::Ln => x.ln(),
                                FnKind::Log10 => x.log10(),
                                FnKind::Exp => x.exp(),
                                FnKind::Exp2 => x.exp2(),
                                FnKind::Abs => x.abs(),
                                FnKind::Ceil => x.ceil(),
                                FnKind::Floor => x.floor(),
                                FnKind::Round => x.round(),
                                _ => unreachable!(),
                            });
                        }
                    }
                    Token::LParen | Token::RParen | Token::Comma => unreachable!(),
                }
            }
            assert_eq!(stack.len(), 1);
            stack.pop().unwrap()
        }
    };
    Ok(format!("{:.*}", fix, val).parse::<f64>().unwrap())
}

fn eval_math_expression(input: &str, prev_ans: Option<f64>) -> Result<f64, CalcError> {
    eval_fixed(input, prev_ans, 10)
}

#[test]
fn basic_ops() {
    let evaled = eval_math_expression("6*2 + 3 + 12 -3", Some(0f64)).unwrap();
    assert_eq!(24., evaled);
}

#[test]
fn trignometric_fns() {
    let evaled = eval_math_expression("sin(30) + tan(45", Some(0f64)).unwrap();
    assert_eq!(1.5, evaled);
}

#[test]
fn brackets() {
    let evaled = eval_math_expression("(((1 + 2 + 3) ^ 2 ) - 4)", Some(0f64)).unwrap();
    assert_eq!(32., evaled);
}

#[test]
fn exponentiation() {
    let evaled = eval_math_expression("2 ** 2 ** 3", None).unwrap();
    assert_eq!(256., evaled); // 2^(2^3), not (2^2)^3
}

#[test]
fn floating_ops() {
    let evaled = eval_math_expression("1.2816 + 1 + 1.2816/1.2", Some(0f64)).unwrap();
    assert_eq!(3.3496, evaled);
}

#[test]
fn inverse_trignometric_fns() {
    let evaled = eval_math_expression("deg(asin(1) + acos(1))", Some(0f64)).unwrap();
    assert_eq!(90., evaled);
}

#[test]
fn sigmoid_fns() {
    let evaled = eval_math_expression("1 / (1 + e^-7)", Some(0f64)).unwrap();
    assert_eq!(0.9990889488, evaled);
}

#[test]
fn prev_ans() {
    let evaled = eval_math_expression("_ + 9", Some(9f64)).unwrap();
    assert_eq!(18.0, evaled);
}

#[test]
fn eval_with_zero_prev() {
    let evaled = eval_math_expression("9 + _ ", Some(0f64)).unwrap();
    assert_eq!(9., evaled);
}

#[test]
fn eval_const_multiplication() {
    let evaled = eval_math_expression("e2", None).unwrap();
    assert_eq!(5.4365636569, evaled);
}

#[test]
fn eval_round() {
    let evaled = eval_math_expression("round(0.5)+round(2.4)", None).unwrap();
    assert_eq!(3., evaled);
}

#[test]
fn eval_exp2() {
    assert_eq!(256., eval_math_expression("exp2(8)", None).unwrap());
}

#[test]
fn eval_exp() {
    assert_eq!(
        20.0855369232 as f64,
        eval_math_expression("exp(3)", None).unwrap()
    );
}

#[test]
fn eval_e_times_n() {
    assert_eq!(0. as f64, eval_math_expression("e0", None).unwrap());
}

#[test]
fn eval_two_arg_fn() {
    let evaled = eval_math_expression("nroot(27, 3)", None).unwrap();
    assert_eq!(3., evaled);
}

#[test]
fn eval_log_n_base() {
    let evaled = eval_math_expression("log(2^16, 4)", None).unwrap();
    assert_eq!(8., evaled);
}

#[test]
fn eval_log_n_brackets() {
    assert_eq!(
        8.0000110068 as f64,
        eval_math_expression("log(1+(2^16),4)", None).unwrap()
    );
}

#[test]
fn eval_mismatched_parens_in_multiarg_fn() {
    assert!(match eval_math_expression("log(1+(2^16, 4)", None) {
        Err(CalcError::Syntax(_)) => true,
        _ => false,
    });
}

#[test]
fn eval_comma_without_multiarg_fn() {
    assert!(match eval_math_expression("1+(2^16, 4)", None) {
        Err(CalcError::Syntax(_)) => true,
        _ => false,
    })
}

#[test]
fn eval_unexpected_comma() {
    assert!(match eval_math_expression("(1+1,2+2)", None) {
        Err(CalcError::Parser(y)) => {
            assert_eq!("Too many operators, Too little operands", y);
            true
        }
        _ => false,
    })
}

#[test]
fn eval_nroot_expr_on_both_sides() {
    assert_eq!(
        1.1294396449 as f64,
        eval_math_expression("nroot(2+2,4+e^2)", None).unwrap()
    );
}

#[test]
fn eval_comma_left_paren_mixup() {
    assert!(match eval_math_expression("exp 2,3)", None) {
        Err(CalcError::Syntax(y)) => {
            assert_eq!("Mismatched parentheses!", y);
            true
        }
        _ => false,
    });
    assert!(match eval_math_expression("exp,2,3)", None) {
        Err(CalcError::Syntax(y)) => {
            assert_eq!("Mismatched parentheses!", y);
            true
        }
        _ => false,
    });
}

#[test]
fn eval_log10() {
    assert_eq!(3 as f64, eval_math_expression("log10(1000)", None).unwrap());
}

#[test]
fn eval_mismatched_args() {
    assert!(match eval_math_expression("nroot(23,3,4)", None) {
        Err(CalcError::Parser(y)) => {
            assert_eq!("Too many operators, Too little operands", y);
            true
        }
        _ => false,
    });
    assert!(match eval_math_expression("nroot(23)", None) {
        Err(CalcError::Parser(y)) => {
            assert_eq!("Too few arguments (1) for function nroot (requires 2)!", y);
            true
        }
        _ => false,
    });
}

#[test]
fn eval_empty_input_is_zero() {
    assert_eq!(0., eval_math_expression("   ", Some(3.)).unwrap());
}

#[test]
fn eval_help_short_circuits() {
    assert!(matches!(
        eval_math_expression(" help ", None),
        Err(CalcError::Help)
    ));
}

#[test]
fn eval_no_previous_answer() {
    assert!(matches!(
        eval_math_expression("_ + 1", None),
        Err(CalcError::Lexer(_))
    ));
}

#[test]
fn eval_unknown_word() {
    assert!(matches!(
        eval_math_expression("foo(2)", None),
        Err(CalcError::Lexer(_))
    ));
}

#[test]
fn eval_malformed_number() {
    assert!(matches!(
        eval_math_expression("1.2.3 + 1", None),
        Err(CalcError::Lexer(_))
    ));
}

#[test]
fn eval_unexpected_character() {
    assert!(matches!(
        eval_math_expression("2 $ 3", None),
        Err(CalcError::Syntax(_))
    ));
}

#[test]
fn eval_close_without_open() {
    assert!(match eval_math_expression("2)", None) {
        Err(CalcError::Syntax(y)) => {
            assert_eq!("Mismatched parentheses!", y);
            true
        }
        _ => false,
    });
}

#[test]
fn eval_implicit_mult_before_paren() {
    assert_eq!(14., eval_math_expression("2(3+4)", None).unwrap());
}

#[test]
fn eval_unary_minus_at_start() {
    // The unary minus binds tighter than exponentiation.
    assert_eq!(9., eval_math_expression("-3^2", None).unwrap());
    assert_eq!(-9., eval_math_expression("-(3^2)", None).unwrap());
}

#[test]
fn eval_min_max() {
    assert_eq!(2., eval_math_expression("min(2, 3)", None).unwrap());
    assert_eq!(3., eval_math_expression("max(2, 3)", None).unwrap());
}

#[test]
fn eval_idempotent_reevaluation() {
    let first = eval_math_expression("1.2816 + 1 + 1.2816/1.2", None).unwrap();
    let text = format!("{}", first);
    let second = eval_math_expression(&text, None).unwrap();
    assert_eq!(first, second);
    let third = eval_math_expression(&format!("{}", second), None).unwrap();
    assert_eq!(second, third);
}
