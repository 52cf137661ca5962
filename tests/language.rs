use lang::grammar::{factor, logic_or, term};
use lang::{
    interpret_all, parse_language, tokenize, BinaryOperator, Env, Expr, InterpError, InterpErrorReason,
    TokenType, UnaryOperator, Value,
};

fn run(source: &str) -> Result<Vec<Value>, InterpError> {
    let program = parse_language(source).expect("program should parse");
    let mut env = Env::new();
    interpret_all(&program, &mut env)
}

fn eval_one(source: &str) -> Value {
    let mut values = run(source).expect("program should evaluate");
    assert_eq!(values.len(), 1);
    values.pop().unwrap()
}

#[test]
fn multiplication_binds_tighter_than_addition() {
    assert_eq!(eval_one("1 + 2 * 3"), Value::Number(7));
}

#[test]
fn parentheses_override_precedence() {
    assert_eq!(eval_one("(1 + 2) * 3"), Value::Number(9));
}

#[test]
fn subtraction_is_left_associative() {
    assert_eq!(eval_one("2 - 3 - 1"), Value::Number(-2));
}

#[test]
fn division_truncates_and_nests_left() {
    assert_eq!(eval_one("7 / 2"), Value::Number(3));
    assert_eq!(eval_one("-7 / 2"), Value::Number(-3));
    assert_eq!(eval_one("100 / 10 / 5"), Value::Number(2));
}

#[test]
fn division_by_zero_is_an_invalid_operation() {
    assert!(matches!(
        run("1 / 0").unwrap_err().reason(),
        &(InterpErrorReason::InvalidBinop(Value::Number(1), Value::Number(0), BinaryOperator::Div))
    ));
}

#[test]
fn overflow_is_an_invalid_operation() {
    assert!(matches!(
        run("9223372036854775807 + 1").unwrap_err().reason(),
        &(InterpErrorReason::InvalidBinop(_, _, BinaryOperator::Add))
    ));
}

#[test]
fn assignment_to_undeclared_name_fails() {
    let expr = Expr::Assignement("x".to_string(), Box::new(Expr::Value(1)));
    let mut env = Env::new();
    let err = expr.interp(&mut env).unwrap_err();
    assert_eq!(err.reason(), &InterpErrorReason::UndeclaredVar("x".to_string()));
    assert!(env.lookup(&"x".to_string()).is_none());
}

#[test]
fn number_times_string_repeats() {
    assert_eq!(eval_one("3 * \"ab\""), Value::String("ababab".to_string()));
    assert_eq!(eval_one("\"ab\" * 2"), Value::String("abab".to_string()));
    assert_eq!(eval_one("-2 * \"ab\""), Value::String(String::new()));
}

#[test]
fn string_plus_number_concatenates_text() {
    assert_eq!(eval_one("\"a\" + 1"), Value::String("a1".to_string()));
    assert_eq!(eval_one("12 + \"b\""), Value::String("12b".to_string()));
    assert_eq!(eval_one("\"x\" + \"y\""), Value::String("xy".to_string()));
}

#[test]
fn string_comparisons() {
    assert_eq!(eval_one("\"a\" == \"a\""), Value::Boolean(true));
    assert_eq!(eval_one("\"a\" !== \"a\""), Value::Boolean(false));
}

#[test]
fn undefined_combination_fails() {
    assert!(matches!(
        run("true + 1").unwrap_err().reason(),
        &(InterpErrorReason::InvalidBinop(Value::Boolean(true), Value::Number(1), BinaryOperator::Add))
    ));
}

#[test]
fn or_multiplies_numbers_and_and_parses_as_or() {
    assert_eq!(eval_one("2 || 3"), Value::Number(6));
    assert_eq!(eval_one("2 && 3"), Value::Number(6));
    assert_eq!(eval_one("false || true"), Value::Boolean(true));
    assert_eq!(eval_one("false && false"), Value::Boolean(false));
}

#[test]
fn greater_than_compares_as_less_than_on_numbers() {
    assert_eq!(eval_one("1 > 2"), Value::Boolean(true));
    assert_eq!(eval_one("true > false"), Value::Boolean(true));
    assert_eq!(eval_one("1 < 2"), Value::Boolean(true));
}

#[test]
fn less_or_equal_is_taken_by_less_than() {
    assert!(parse_language("1 <= 2").is_err());
}

#[test]
fn truthiness_of_values() {
    assert!(matches!(Value::String(String::new()).is_truthy(), Ok(false)));
    assert!(matches!(Value::Number(0).is_truthy(), Ok(false)));
    assert!(matches!(Value::Number(-4).is_truthy(), Ok(true)));
    assert!(matches!(Value::String("a".to_string()).is_truthy(), Ok(true)));
    assert!(matches!(Value::Boolean(true).is_truthy(), Ok(true)));
    let err = Value::NoVal.is_truthy().unwrap_err();
    assert_eq!(err.reason(), &InterpErrorReason::NoValOperation);
}

#[test]
fn no_value_in_binary_operation_fails() {
    let err = Value::NoVal.apply_binop(BinaryOperator::Add, Value::Number(1)).unwrap_err();
    assert!(matches!(err.reason(), InterpErrorReason::InvalidBinop(Value::NoVal, Value::Number(1), _)));
}

#[test]
fn unary_operators() {
    assert_eq!(eval_one("!true"), Value::Boolean(false));
    assert_eq!(eval_one("--4"), Value::Number(4));
    assert!(matches!(run("!1").unwrap_err().reason(), InterpErrorReason::InvalidUnop(Value::Number(1))));
}

#[test]
fn statements_share_one_environment() {
    let program = parse_language("x = 1; x = x + 1; x").unwrap();
    assert_eq!(program.len(), 3);
    let mut env = Env::new();
    env.declare("x".to_string(), Value::Number(0));
    let values = interpret_all(&program, &mut env).unwrap();
    assert_eq!(values.last(), Some(&Value::Number(2)));
}

#[test]
fn failure_stops_program_and_keeps_assignments() {
    let program = parse_language("x = 5; y = 1; x = 7").unwrap();
    let mut env = Env::new();
    env.declare("x".to_string(), Value::Number(0));
    let err = interpret_all(&program, &mut env).unwrap_err();
    assert_eq!(err.reason(), &InterpErrorReason::UndeclaredVar("y".to_string()));
    assert_eq!(env.lookup(&"x".to_string()), Some(Value::Number(5)));
}

#[test]
fn nested_scope_assigns_in_enclosing_scope() {
    let mut outer = Env::new();
    outer.declare("a".to_string(), Value::Number(1));
    let mut inner = Env::enclosing(outer);
    assert_eq!(inner.lookup(&"a".to_string()), Some(Value::Number(1)));
    assert!(inner.assign("a".to_string(), Value::Number(2)));
    assert_eq!(inner.get_ident_value(&"a".to_string()).unwrap(), Value::Number(2));
    assert!(!inner.assign("b".to_string(), Value::Number(3)));
    assert!(inner.get_ident_value(&"b".to_string()).is_err());
}

#[test]
fn assignment_is_right_associative_and_yields_value() {
    let mut env = Env::new();
    env.declare("a".to_string(), Value::Number(0));
    env.declare("b".to_string(), Value::Number(0));
    let program = parse_language("a = b = 4").unwrap();
    let values = interpret_all(&program, &mut env).unwrap();
    assert_eq!(values, vec![Value::Number(4)]);
    assert_eq!(env.lookup(&"a".to_string()), Some(Value::Number(4)));
    assert_eq!(env.lookup(&"b".to_string()), Some(Value::Number(4)));
}

#[test]
fn malformed_input_is_a_parse_error() {
    assert!(parse_language("1 +").is_err());
    assert!(parse_language("(1").is_err());
    assert!(parse_language("\"open").is_err());
    assert!(parse_language("1 2").is_err());
}

#[test]
fn empty_program_and_trailing_separator() {
    assert_eq!(parse_language("").unwrap().len(), 0);
    assert_eq!(parse_language("  \n ").unwrap().len(), 0);
    assert_eq!(parse_language("1; 2;").unwrap().len(), 2);
}

#[test]
fn parse_error_reports_position() {
    let err = parse_language("1 2").unwrap_err();
    assert_eq!(err.position(), 2);
}

#[test]
fn literal_round_trips() {
    for source in ["true", "false", "42", "0", "-17"] {
        let parsed = parse_language(source).unwrap();
        assert_eq!(parsed.len(), 1);
        assert_eq!(parsed[0].to_text(), source);
    }
    let parsed = parse_language("\"say \\\"hi\\\"\"").unwrap();
    assert_eq!(parsed[0], Expr::Str("say \"hi\"".to_string()));
    assert_eq!(parsed[0].to_text(), "say \"hi\"");
}

#[test]
fn number_literals() {
    assert_eq!(parse_language("007").is_err(), true);
    assert!(parse_language("99999999999999999999").is_err());
    assert_eq!(eval_one("9223372036854775807"), Value::Number(i64::MAX));
}

#[test]
fn value_display() {
    assert_eq!(Value::NoVal.to_text(), "()");
    assert_eq!(Value::Number(-12).to_text(), "-12");
    assert_eq!(Value::Number(i64::MIN).to_text(), "-9223372036854775808");
    assert_eq!(Value::Boolean(false).to_text(), "false");
    assert_eq!(Value::String("hi".to_string()).to_text(), "hi");
}

#[test]
fn expression_display() {
    let program = parse_language("x = !a + 2 * b").unwrap();
    assert_eq!(program[0].to_text(), "x = (!a + (2 * b))");
    let call = parse_language("f :> 1 :: g").unwrap();
    assert_eq!(
        call[0],
        Expr::Call(
            Box::new(Expr::Ident("f".to_string())),
            vec![Expr::Value(1), Expr::Ident("g".to_string())]
        )
    );
    assert_eq!(call[0].to_text(), "f :> (1, g)");
    assert_eq!(
        Expr::Unary(UnaryOperator::Neg, Box::new(Expr::Value(3))).to_text(),
        "-3"
    );
}

#[test]
fn call_evaluates_to_callee() {
    assert_eq!(eval_one("3 :> 1"), Value::Number(3));
}

#[test]
fn operator_symbols() {
    assert_eq!(BinaryOperator::Neq.symbol(), "!==");
    assert_eq!(BinaryOperator::Or.symbol(), "||");
    assert_eq!(UnaryOperator::Bang.symbol(), "!");
}

#[test]
fn tokenize_splits_and_classifies() {
    let tokens = tokenize("let x = ( 12 + y )\n").unwrap();
    let kinds: Vec<TokenType> = tokens.iter().map(|t| t.token_type()).collect();
    assert_eq!(
        kinds,
        vec![
            TokenType::Let,
            TokenType::Id,
            TokenType::Assign,
            TokenType::OpenParenthesis,
            TokenType::Num,
            TokenType::BinOp,
            TokenType::Id,
            TokenType::ClosedParenthis,
        ]
    );
    assert_eq!(tokens[4].value(), "12");
    let tokens = tokenize("( 12 )").unwrap();
    assert_eq!(tokens[2].token_type(), TokenType::ClosedParenthis);
    assert_eq!(tokenize("a == b").unwrap()[1].token_type(), TokenType::Eq);
}

#[test]
fn tokenize_rejects_unknown_word() {
    assert_eq!(tokenize("a $ b").unwrap_err(), "could not parse token '$'");
    assert_eq!(tokenize("   ").unwrap().len(), 0);
}

#[test]
fn single_levels_stop_at_looser_operators() {
    let (end, expr) = factor("2 * 3 + 1", 0).unwrap();
    assert_eq!(end, 6);
    assert_eq!(
        expr,
        Expr::Binary(BinaryOperator::Mul, Box::new(Expr::Value(2)), Box::new(Expr::Value(3)))
    );
    let (end, _) = term("2 * 3 + 1 == 7", 0).unwrap();
    assert_eq!(end, 10);
    let (end, expr) = logic_or("a || b", 0).unwrap();
    assert_eq!(end, 6);
    assert_eq!(expr.to_text(), "(a || b)");
    assert!(factor(")", 0).is_err());
}
