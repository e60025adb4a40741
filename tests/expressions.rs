use wgsl_plus::{IntErrorKind, WgslError, WgslExpression, WgslLiteral, WgslOperator, WgslWorkspaceState};

fn float_parse(t: String) -> u64 {
    t.parse::<f64>().unwrap().to_bits()
}

fn float_arith(op: WgslOperator, a: u64, b: u64) -> u64 {
    let (x, y) = (f64::from_bits(a), f64::from_bits(b));
    let r = match op {
        WgslOperator::Add => x + y,
        WgslOperator::Subtract => x - y,
        WgslOperator::Multiply => x * y,
        WgslOperator::Divide => x / y,
        _ => f64::NAN,
    };
    r.to_bits()
}

fn parse(s: &str) -> Result<WgslExpression, WgslError> {
    WgslExpression::new(s, &float_parse)
}

fn eval_in(s: &str, state: &WgslWorkspaceState) -> Result<WgslLiteral, WgslError> {
    parse(s).unwrap().evaluate(state, &float_arith)
}

fn eval(s: &str) -> Result<WgslLiteral, WgslError> {
    eval_in(s, &WgslWorkspaceState::empty())
}

fn env(pairs: &[(&str, WgslLiteral)]) -> WgslWorkspaceState {
    let mut st = WgslWorkspaceState::empty();
    for (k, v) in pairs {
        st.set_global(k.to_string(), *v);
    }
    st
}

#[test]
fn radix_literals() {
    assert_eq!(eval("0b1010").unwrap(), WgslLiteral::Integer(10));
    assert_eq!(eval("0o17").unwrap(), WgslLiteral::Integer(15));
    assert_eq!(eval("0x1_0").unwrap(), WgslLiteral::Integer(16));
    assert_eq!(eval("0X20").unwrap(), WgslLiteral::Integer(32));
    assert_eq!(eval("1_000_000").unwrap(), WgslLiteral::Integer(1_000_000));
    assert_eq!(eval("9223372036854775807").unwrap(), WgslLiteral::Integer(i64::MAX));
}

#[test]
fn parentheses_keep_value() {
    let st = env(&[("a", WgslLiteral::Integer(4)), ("b", WgslLiteral::Integer(9))]);
    for e in ["a * b - 3", "a < b", "!true | false", "-a + 2"] {
        let inner = eval_in(e, &st).unwrap();
        let wrapped = eval_in(&format!("({})", e), &st).unwrap();
        assert_eq!(inner, wrapped);
    }
}

#[test]
fn right_associative_subtraction() {
    let st = env(&[
        ("a", WgslLiteral::Integer(5)),
        ("b", WgslLiteral::Integer(3)),
        ("c", WgslLiteral::Integer(1)),
    ]);
    assert_eq!(eval_in("a - b - c", &st).unwrap(), WgslLiteral::Integer(3));
}

#[test]
fn no_precedence() {
    assert_eq!(eval("2 * 3 + 4").unwrap(), WgslLiteral::Integer(14));
    assert_eq!(eval("2 + 3 * 4").unwrap(), WgslLiteral::Integer(14));
    assert_eq!(eval("(2 * 3) + 4").unwrap(), WgslLiteral::Integer(10));
}

#[test]
fn unary_binds_tightest() {
    assert_eq!(eval("-2 + 5").unwrap(), WgslLiteral::Integer(3));
    assert_eq!(eval("~0").unwrap(), WgslLiteral::Integer(-1));
    assert_eq!(eval("!false").unwrap(), WgslLiteral::Bool(true));
}

#[test]
fn whitespace_is_ignored() {
    assert_eq!(eval(" 1 2 + \t3 ").unwrap(), WgslLiteral::Integer(15));
}

#[test]
fn float_arithmetic() {
    assert_eq!(eval("1.5 + 2.25").unwrap(), WgslLiteral::Float(3.75f64.to_bits()));
    assert_eq!(eval("-0.5").unwrap(), WgslLiteral::Float((-0.5f64).to_bits()));
    assert_eq!(eval("7.0 / 2.0").unwrap(), WgslLiteral::Float(3.5f64.to_bits()));
}

#[test]
fn integer_division_truncates() {
    assert_eq!(eval("7 / 2").unwrap(), WgslLiteral::Integer(3));
    assert_eq!(eval("-7 / 2").unwrap(), WgslLiteral::Integer(-3));
}

#[test]
fn division_by_zero_faults() {
    let e = parse("1 / 0").unwrap();
    assert!(e.try_evaluate(&WgslWorkspaceState::empty(), &float_arith).is_none());
}

#[test]
fn bitwise_and_logical() {
    assert_eq!(eval("6 & 3").unwrap(), WgslLiteral::Integer(2));
    assert_eq!(eval("6 | 3").unwrap(), WgslLiteral::Integer(7));
    assert_eq!(eval("true & false").unwrap(), WgslLiteral::Bool(false));
    assert_eq!(eval("true && false").unwrap(), WgslLiteral::Bool(false));
    assert_eq!(eval("false || true").unwrap(), WgslLiteral::Bool(true));
    assert_eq!(eval("false && missing").unwrap(), WgslLiteral::Bool(false));
    assert_eq!(eval("true || missing").unwrap(), WgslLiteral::Bool(true));
    assert!(matches!(eval("1 && true"), Err(WgslError::InvalidExpression)));
}

#[test]
fn comparisons() {
    assert_eq!(eval("2 < 3").unwrap(), WgslLiteral::Bool(true));
    assert_eq!(eval("3 <= 3").unwrap(), WgslLiteral::Bool(true));
    assert_eq!(eval("2 > 3").unwrap(), WgslLiteral::Bool(false));
    assert_eq!(eval("3 >= 4").unwrap(), WgslLiteral::Bool(false));
    assert_eq!(eval("3 == 3").unwrap(), WgslLiteral::Bool(true));
    assert_eq!(eval("3 != 3").unwrap(), WgslLiteral::Bool(false));
    assert_eq!(eval("1 == 1.0").unwrap(), WgslLiteral::Bool(false));
    assert_eq!(eval("1.5 < 2.5").unwrap(), WgslLiteral::Bool(true));
    assert_eq!(eval("-1.5 < -2.5").unwrap(), WgslLiteral::Bool(false));
}

#[test]
fn type_mismatch() {
    assert!(matches!(eval("1 + true"), Err(WgslError::InvalidExpression)));
    assert!(matches!(eval("1 + 1.0"), Err(WgslError::InvalidExpression)));
    assert!(matches!(eval("!1"), Err(WgslError::InvalidExpression)));
}

#[test]
fn undefined_reference() {
    assert!(matches!(eval("MISSING"), Err(WgslError::UndefinedVariable)));
    assert!(matches!(eval("1 + MISSING"), Err(WgslError::UndefinedVariable)));
}

#[test]
fn override_wins() {
    let mut st = env(&[("X", WgslLiteral::Integer(1))]);
    st.set_override("X".to_string(), WgslLiteral::Integer(2));
    assert_eq!(eval_in("X", &st).unwrap(), WgslLiteral::Integer(2));
    assert_eq!(st.get("X"), Some(WgslLiteral::Integer(2)));
    assert_eq!(st.get("Y"), None);
}

#[test]
fn default_bits() {
    let st = WgslWorkspaceState::default();
    assert_eq!(st.get("BIT_3"), Some(WgslLiteral::Integer(8)));
    assert_eq!(st.get("BIT_63"), Some(WgslLiteral::Integer(i64::MIN)));
    assert_eq!(eval_in("BIT_0 | BIT_1", &st).unwrap(), WgslLiteral::Integer(3));
}

#[test]
fn parse_errors() {
    assert!(matches!(parse("1.2.3"), Err(WgslError::DuplicatePeriod)));
    assert!(matches!(parse("(1+2"), Err(WgslError::NoClosingParenthesis)));
    assert!(matches!(parse("1+"), Err(WgslError::NoExpression)));
    assert!(matches!(parse(""), Err(WgslError::NoExpression)));
    assert!(matches!(parse("12x"), Err(WgslError::InvalidBase)));
    assert!(matches!(parse("0x"), Err(WgslError::ParseIntError(IntErrorKind::Empty))));
    assert!(matches!(parse("0b102"), Err(WgslError::ParseIntError(IntErrorKind::InvalidDigit))));
    assert!(matches!(
        parse("9223372036854775808"),
        Err(WgslError::ParseIntError(IntErrorKind::PosOverflow))
    ));
    assert!(matches!(parse("0b."), Err(WgslError::ParseFloatError)));
    match parse("1 )x") {
        Err(WgslError::LeftoverChars(t)) => assert_eq!(t, ")x"),
        other => panic!("{:?}", other),
    }
    assert!(matches!(parse("a ="), Err(WgslError::LeftoverChars(_))));
}

#[test]
fn words() {
    assert!(matches!(parse("true").unwrap(), WgslExpression::Literal(WgslLiteral::Bool(true))));
    match parse("_name1").unwrap() {
        WgslExpression::Reference(r) => assert_eq!(r, "_name1"),
        other => panic!("{:?}", other),
    }
}

#[test]
fn operator_priority_order() {
    assert_eq!(WgslOperator::Add.priority(), 0);
    assert_eq!(WgslOperator::BitwiseOr.priority(), 5);
}
