use ratcalc::context::Context;
use ratcalc::evaluator::{apply_fn, checked_power, evaluate, ArithmeticError, EvalError};
use ratcalc::expr::{Expr, Op};
use ratcalc::parser::{parse, ParseError};
use ratcalc::rational::Rational;
use ratcalc::tokenizer::{tokenize_str, LexError, Symbol, Token, Tokenizer};

fn num(n: i64, d: i64) -> Expr {
    Expr::Number(Rational::from_ratio(n, d))
}

fn whole(n: i64) -> Expr {
    Expr::Number(Rational::from_integer(n))
}

fn name(s: &str) -> Expr {
    Expr::Name(s.to_string())
}

fn bin(l: Expr, op: Op, r: Expr) -> Expr {
    Expr::BinaryExpr(Box::new(l), op, Box::new(r))
}

fn run(line: &str, ctx: &mut Context) -> Result<Expr, EvalError> {
    let tokens = tokenize_str(line).expect("lexes");
    let e = parse(&tokens).expect("parses");
    evaluate(e, ctx)
}

fn run_empty(line: &str) -> Result<Expr, EvalError> {
    run(line, &mut Context::new())
}

#[test]
fn thirds_add_up_to_one() {
    assert_eq!(run_empty("1/3 + 1/3 + 1/3"), Ok(whole(1)));
}

#[test]
fn divide_then_multiply_round_trips() {
    let cases = [(7, 3, -5, 2), (-22, 7, 3, 11), (0, 1, 9, 4), (123456789, 1000, -1, 3)];
    for (an, ad, bn, bd) in cases {
        let e = bin(bin(num(an, ad), Op::Divide, num(bn, bd)), Op::Multiply, num(bn, bd));
        assert_eq!(evaluate(e, &mut Context::new()), Ok(num(an, ad)));
    }
}

#[test]
fn multiplication_binds_tighter_than_addition() {
    assert_eq!(run_empty("2 + 3 * 4"), Ok(whole(14)));
}

#[test]
fn exponent_binds_tighter_than_multiplication() {
    assert_eq!(run_empty("2 * 3 ^ 2"), Ok(whole(18)));
}

#[test]
fn exponent_is_right_associative() {
    assert_eq!(run_empty("2 ^ 3 ^ 2"), Ok(whole(512)));
}

#[test]
fn subtraction_is_left_associative() {
    assert_eq!(run_empty("10 - 4 - 3"), Ok(whole(3)));
    assert_eq!(run_empty("12 / 3 / 2"), Ok(whole(2)));
}

#[test]
fn juxtaposition_multiplies() {
    let mut ctx = Context::new();
    ctx.set("x".to_string(), whole(5));
    assert_eq!(run("2 x", &mut ctx), Ok(whole(10)));
}

#[test]
fn juxtaposition_applies_functions() {
    assert_eq!(run_empty("floor 7.8"), Ok(whole(7)));
    assert_eq!(run_empty("ceil 7.2"), Ok(whole(8)));
    assert_eq!(run_empty("round 2.5"), Ok(whole(3)));
    assert_eq!(run_empty("round 2.4"), Ok(whole(2)));
    assert_eq!(run_empty("trunc 7.8"), Ok(whole(7)));
    assert_eq!(run_empty("fract 7.25"), Ok(num(1, 4)));
    assert_eq!(run_empty("abs 0.75"), Ok(num(3, 4)));
}

#[test]
fn functions_on_negative_numbers() {
    let f = |n: &str, v: Expr| apply_fn(&n.to_string(), &v);
    assert_eq!(f("floor", num(-78, 10)), Some(whole(-8)));
    assert_eq!(f("ceil", num(-78, 10)), Some(whole(-7)));
    assert_eq!(f("round", num(-5, 2)), Some(whole(-3)));
    assert_eq!(f("trunc", num(-78, 10)), Some(whole(-7)));
    assert_eq!(f("fract", num(-29, 4)), Some(num(-1, 4)));
    assert_eq!(f("abs", num(-3, 4)), Some(num(3, 4)));
    assert_eq!(f("sqrt", whole(4)), None);
    assert_eq!(f("floor", name("y")), None);
}

#[test]
fn unknown_function_stays_unreduced() {
    assert_eq!(run_empty("sqrt 4"), Ok(bin(name("sqrt"), Op::Adjacent, whole(4))));
}

#[test]
fn non_integer_exponent_does_not_reduce() {
    let e = bin(whole(2), Op::Exponent, num(1, 2));
    assert_eq!(evaluate(e, &mut Context::new()), Ok(bin(whole(2), Op::Exponent, num(1, 2))));
}

#[test]
fn integer_powers_of_fractions() {
    assert_eq!(run_empty("2 ^ 10"), Ok(whole(1024)));
    let e = bin(num(2, 3), Op::Exponent, whole(-2));
    assert_eq!(evaluate(e, &mut Context::new()), Ok(num(9, 4)));
    let e = bin(num(-2, 3), Op::Exponent, whole(3));
    assert_eq!(evaluate(e, &mut Context::new()), Ok(num(-8, 27)));
    assert_eq!(run_empty("5 ^ 0"), Ok(whole(1)));
}

#[test]
fn oversized_power_does_not_reduce() {
    assert_eq!(run_empty("2 ^ 64"), Ok(bin(whole(2), Op::Exponent, whole(64))));
    assert_eq!(run_empty("2 ^ 62"), Ok(whole(1i64 << 62)));
}

#[test]
fn checked_power_limits() {
    assert_eq!(checked_power(2, 62), Some(1i64 << 62));
    assert_eq!(checked_power(2, 63), None);
    assert_eq!(checked_power(-2, 63), Some(i64::MIN));
    assert_eq!(checked_power(-1, 4000000000), Some(1));
    assert_eq!(checked_power(0, 0), Some(1));
}

#[test]
fn zero_to_a_negative_power_divides_by_zero() {
    let e = bin(whole(0), Op::Exponent, whole(-1));
    assert_eq!(
        evaluate(e, &mut Context::new()),
        Err(EvalError::Arithmetic(ArithmeticError::DivisionByZero))
    );
}

#[test]
fn division_by_zero_fails() {
    assert_eq!(run_empty("1 / 0"), Err(EvalError::Arithmetic(ArithmeticError::DivisionByZero)));
}

#[test]
fn modulus_by_zero_fails() {
    assert_eq!(run_empty("1 % 0"), Err(EvalError::Arithmetic(ArithmeticError::DivisionByZero)));
}

#[test]
fn modulus_truncates_toward_zero() {
    assert_eq!(run_empty("7 % 3"), Ok(whole(1)));
    let e = bin(whole(-7), Op::Modulus, whole(3));
    assert_eq!(evaluate(e, &mut Context::new()), Ok(whole(-1)));
    assert_eq!(run_empty("3.5 % 1"), Ok(num(1, 2)));
}

#[test]
fn circular_binding_fails() {
    let mut ctx = Context::new();
    ctx.set("a".to_string(), name("b"));
    ctx.set("b".to_string(), name("a"));
    assert_eq!(evaluate(name("a"), &mut ctx), Err(EvalError::CircularReference("a".to_string())));
    // the failure leaves the bindings usable
    ctx.set("b".to_string(), whole(4));
    assert_eq!(evaluate(name("a"), &mut ctx), Ok(whole(4)));
}

#[test]
fn self_reference_fails() {
    let mut ctx = Context::new();
    ctx.set("n".to_string(), bin(name("n"), Op::Add, whole(1)));
    assert_eq!(evaluate(name("n"), &mut ctx), Err(EvalError::CircularReference("n".to_string())));
}

#[test]
fn unbound_name_is_returned() {
    assert_eq!(evaluate(name("z"), &mut Context::new()), Ok(name("z")));
}

#[test]
fn partial_reduction_keeps_reduced_sides() {
    assert_eq!(run_empty("y + 2 * 3"), Ok(bin(name("y"), Op::Add, whole(6))));
}

#[test]
fn equality_compares_values() {
    assert_eq!(run_empty("3 = 3"), Ok(Expr::Boolean(true)));
    assert_eq!(run_empty("3 = 4"), Ok(Expr::Boolean(false)));
    assert_eq!(run_empty("1/2 = 0.5"), Ok(Expr::Boolean(true)));
}

#[test]
fn evaluating_a_result_again_changes_nothing() {
    let mut ctx = Context::new();
    ctx.set("x".to_string(), whole(3));
    for line in ["x + y * 2", "2 ^ 0.5 + x", "sqrt x", "x = 3", "q ^ 2 - 1 / 4"] {
        let once = run(line, &mut ctx).unwrap();
        let copy = once.duplicate();
        assert_eq!(evaluate(once, &mut ctx), Ok(copy));
    }
}

#[test]
fn tuples_evaluate_each_item() {
    let t = Expr::Tuple(vec![bin(whole(1), Op::Add, whole(1)), name("w")]);
    assert_eq!(evaluate(t, &mut Context::new()), Ok(Expr::Tuple(vec![whole(2), name("w")])));
    let bad = Expr::Tuple(vec![whole(1), bin(whole(1), Op::Divide, whole(0))]);
    assert_eq!(
        evaluate(bad, &mut Context::new()),
        Err(EvalError::Arithmetic(ArithmeticError::DivisionByZero))
    );
}

#[test]
fn bindings_are_looked_up_through_chains() {
    let mut ctx = Context::new();
    ctx.set("a".to_string(), bin(name("b"), Op::Multiply, whole(2)));
    ctx.set("b".to_string(), whole(7));
    assert_eq!(run("a + b", &mut ctx), Ok(whole(21)));
    ctx.set("b".to_string(), whole(1));
    assert_eq!(ctx.get(&"b".to_string()), Some(whole(1)));
    assert_eq!(ctx.get(&"c".to_string()), None);
    assert_eq!(run("a", &mut ctx), Ok(whole(2)));
}

#[test]
fn lexes_numbers_names_and_operators() {
    let toks = "12.5 + abc*x1".to_string().tokenize();
    assert_eq!(
        toks,
        Ok(vec![
            Token::Integer(Rational::from_ratio(25, 2)),
            Token::Operator(Symbol::Add),
            Token::Name("abc".to_string()),
            Token::Operator(Symbol::Multiply),
            Token::Name("x".to_string()),
            Token::Integer(Rational::from_integer(1)),
        ])
    );
}

#[test]
fn underscores_separate_digit_groups() {
    assert_eq!(
        tokenize_str("1_000.25"),
        Ok(vec![Token::Integer(Rational::from_ratio(4001, 4))])
    );
    assert_eq!(
        tokenize_str("123456789012345678901234567890"),
        tokenize_str("123_456_789_012_345_678_901_234_567_890")
    );
}

#[test]
fn lex_errors() {
    assert_eq!(tokenize_str("2 $ 3"), Err(LexError::InvalidChar(2)));
    assert_eq!(tokenize_str("1.2.3"), Err(LexError::MalformedNumber(0)));
    assert_eq!(tokenize_str(" \t\n"), Ok(vec![]));
}

#[test]
fn parse_errors() {
    assert_eq!(parse(&vec![]), Err(ParseError::Empty));
    assert_eq!(parse(&tokenize_str("+ 1").unwrap()), Err(ParseError::UnexpectedToken(0)));
    assert_eq!(parse(&tokenize_str("2 +").unwrap()), Err(ParseError::UnexpectedEnd));
    assert_eq!(parse(&tokenize_str("1 = 2 = 3").unwrap()), Err(ParseError::UnexpectedToken(3)));
    assert_eq!(parse(&tokenize_str("2 * - 3").unwrap()), Err(ParseError::UnexpectedToken(2)));
}

#[test]
fn parse_shapes() {
    let e = parse(&tokenize_str("a b ^ c = 1 - d").unwrap()).unwrap();
    let want = bin(
        bin(name("a"), Op::Adjacent, bin(name("b"), Op::Exponent, name("c"))),
        Op::Equals,
        bin(whole(1), Op::Subtract, name("d")),
    );
    assert_eq!(e, want);
}

#[test]
fn big_values_stay_exact() {
    let big = "123456789012345678901234567890";
    let line = format!("{} * {} / {}", big, big, big);
    let want = run_empty(big).unwrap();
    assert_eq!(run_empty(&line), Ok(want));
    assert_eq!(run_empty("0.1 + 0.2 = 0.3"), Ok(Expr::Boolean(true)));
}

#[test]
fn power_with_oversized_reciprocal_does_not_reduce() {
    let e = bin(whole(i64::MIN), Op::Exponent, whole(-1));
    assert_eq!(
        evaluate(e, &mut Context::new()),
        Ok(bin(whole(i64::MIN), Op::Exponent, whole(-1)))
    );
    let e = bin(whole(-2), Op::Exponent, whole(63));
    assert_eq!(evaluate(e, &mut Context::new()), Ok(whole(i64::MIN)));
    let e = bin(whole(-2), Op::Exponent, whole(-62));
    assert_eq!(evaluate(e, &mut Context::new()), Ok(num(1, 1i64 << 62)));
}

#[test]
fn all_whitespace_is_discarded() {
    assert_eq!(tokenize_str("\r\n"), Ok(vec![]));
    assert_eq!(tokenize_str("\u{a0}\u{3000}\u{2009}\u{b}\u{c}\u{85}"), Ok(vec![]));
    assert_eq!(tokenize_str(""), Ok(vec![]));
    assert_eq!(run_empty("1\u{a0}+\u{3000}2\r\n"), Ok(whole(3)));
}
