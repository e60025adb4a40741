//! The expression tree, its literal values and its evaluation.
use vstd::prelude::*;

use crate::error::WgslError;
use crate::state::WgslWorkspaceState;

verus! {

/// A value of the expression language. A float is held as its IEEE-754
/// binary64 bit pattern.
#[derive(Debug, Clone, Copy, PartialEq, Eq, Structural)]
pub enum WgslLiteral {
    Integer(i64),
    Float(u64),
    Bool(bool),
}

#[derive(Debug, Clone, Copy, PartialEq, Eq, Structural)]
pub enum WgslOperator {
    Add,
    Subtract,
    Multiply,
    Divide,
    BitwiseAnd,
    BitwiseOr,
}

impl WgslOperator {
    pub open spec fn spec_priority(self) -> usize {
        match self {
            WgslOperator::Add => 0,
            WgslOperator::Subtract => 1,
            WgslOperator::Multiply => 2,
            WgslOperator::Divide => 3,
            WgslOperator::BitwiseAnd => 4,
            WgslOperator::BitwiseOr => 5,
        }
    }

    /// The rank of the operator, in the order of its declaration.
    pub fn priority(&self) -> (r: usize)
        ensures
            r == self.spec_priority(),
    {
        match self {
            WgslOperator::Add => 0,
            WgslOperator::Subtract => 1,
            WgslOperator::Multiply => 2,
            WgslOperator::Divide => 3,
            WgslOperator::BitwiseAnd => 4,
            WgslOperator::BitwiseOr => 5,
        }
    }

    /// Whether the operator applies to two floats.
    pub open spec fn is_arithmetic(self) -> bool {
        self is Add || self is Subtract || self is Multiply || self is Divide
    }
}

#[derive(Debug, Clone, Copy, PartialEq, Eq, Structural)]
pub enum WgslUnaryOperator {
    Negate,
    Not,
    BitwiseNot,
}

#[derive(Debug, Clone, Copy, PartialEq, Eq, Structural)]
pub enum WgslComparison {
    Equal,
    NotEqual,
    LessThan,
    LessThanOrEqual,
    GreaterThan,
    GreaterThanOrEqual,
    And,
    Or,
}

#[allow(inconsistent_fields)]
#[derive(Debug)]
pub enum WgslExpression {
    Literal(WgslLiteral),
    Reference(String),
    Operator { left: Box<WgslExpression>, operator: WgslOperator, right: Box<WgslExpression> },
    Unary { operator: WgslUnaryOperator, right: Box<WgslExpression> },
    Comparison { left: Box<WgslExpression>, comparison: WgslComparison, right: Box<WgslExpression> },
    Parenthesized(Box<WgslExpression>),
}

/// The mathematical form of an expression, with names as character sequences.
pub ghost enum ExprView {
    Literal(WgslLiteral),
    Reference(Seq<char>),
    Operator(Box<ExprView>, WgslOperator, Box<ExprView>),
    Unary(WgslUnaryOperator, Box<ExprView>),
    Comparison(Box<ExprView>, WgslComparison, Box<ExprView>),
    Parenthesized(Box<ExprView>),
}

impl WgslExpression {
    pub open spec fn view(&self) -> ExprView
        decreases self,
    {
        match self {
            WgslExpression::Literal(l) => ExprView::Literal(*l),
            WgslExpression::Reference(r) => ExprView::Reference(r@),
            WgslExpression::Operator { left, operator, right } => ExprView::Operator(
                Box::new(left.view()),
                *operator,
                Box::new(right.view()),
            ),
            WgslExpression::Unary { operator, right } => ExprView::Unary(*operator, Box::new(right.view())),
            WgslExpression::Comparison { left, comparison, right } => ExprView::Comparison(
                Box::new(left.view()),
                *comparison,
                Box::new(right.view()),
            ),
            WgslExpression::Parenthesized(inner) => ExprView::Parenthesized(Box::new(inner.view())),
        }
    }
}

/// Float arithmetic on bit patterns: `Add`, `Subtract`, `Multiply` or
/// `Divide` of two binary64 values, as the floating-point unit computes it.
pub type FloatArith = spec_fn(WgslOperator, u64, u64) -> u64;

/// `f` gives one result for each input.
pub open spec fn determinate_arith<F: Fn(WgslOperator, u64, u64) -> u64>(f: &F) -> bool {
    &&& forall|o: WgslOperator, a: u64, b: u64| #[trigger] f.requires((o, a, b))
    &&& forall|o: WgslOperator, a: u64, b: u64, r1: u64, r2: u64|
        #[trigger] f.ensures((o, a, b), r1) && #[trigger] f.ensures((o, a, b), r2) ==> r1 == r2
}

/// The function that `f` computes.
pub open spec fn arith_of<F: Fn(WgslOperator, u64, u64) -> u64>(f: &F) -> FloatArith {
    |o: WgslOperator, a: u64, b: u64| choose|r: u64| f.ensures((o, a, b), r)
}

pub open spec fn float_magnitude(b: u64) -> u64 {
    b & 0x7fff_ffff_ffff_ffffu64
}

pub open spec fn float_is_negative(b: u64) -> bool {
    b >> 63u64 == 1u64
}

pub open spec fn float_is_nan(b: u64) -> bool {
    float_magnitude(b) > 0x7ff0_0000_0000_0000u64
}

/// The position of a non-NaN float on the number line, with both zeros at 0.
pub open spec fn float_key(b: u64) -> int {
    if float_is_negative(b) { -(float_magnitude(b) as int) } else { float_magnitude(b) as int }
}

/// IEEE-754 ordering: `None` when either side is NaN, else -1, 0 or 1.
pub open spec fn float_order(a: u64, b: u64) -> Option<int> {
    if float_is_nan(a) || float_is_nan(b) {
        None
    } else {
        Some(sign_of(float_key(a) - float_key(b)))
    }
}

pub open spec fn sign_of(x: int) -> int {
    if x < 0 { -1 } else if x == 0 { 0 } else { 1 }
}

/// The floats that count as true: every value but the two zeros.
pub open spec fn float_truthy(b: u64) -> bool {
    float_magnitude(b) != 0
}

pub open spec fn variant_index(l: WgslLiteral) -> int {
    match l {
        WgslLiteral::Integer(_) => 0,
        WgslLiteral::Float(_) => 1,
        WgslLiteral::Bool(_) => 2,
    }
}

/// The order of two literals: variants ordered Integer, Float, Bool, values
/// within a variant by their natural order; `None` where unordered (NaN).
pub open spec fn literal_order(a: WgslLiteral, b: WgslLiteral) -> Option<int> {
    match (a, b) {
        (WgslLiteral::Integer(x), WgslLiteral::Integer(y)) => Some(sign_of(x - y)),
        (WgslLiteral::Float(x), WgslLiteral::Float(y)) => float_order(x, y),
        (WgslLiteral::Bool(x), WgslLiteral::Bool(y)) => Some(
            sign_of((if x { 1int } else { 0int }) - (if y { 1int } else { 0int })),
        ),
        _ => Some(sign_of(variant_index(a) - variant_index(b))),
    }
}

/// The truth value of a comparison other than `And` and `Or`.
pub open spec fn compare_spec(c: WgslComparison, a: WgslLiteral, b: WgslLiteral) -> bool {
    let o = literal_order(a, b);
    match c {
        WgslComparison::Equal => o == Some(0int),
        WgslComparison::NotEqual => o != Some(0int),
        WgslComparison::LessThan => o == Some(-1int),
        WgslComparison::LessThanOrEqual => o == Some(-1int) || o == Some(0int),
        WgslComparison::GreaterThan => o == Some(1int),
        WgslComparison::GreaterThanOrEqual => o == Some(1int) || o == Some(0int),
        _ => false,
    }
}

/// Integer division rounded toward zero.
pub open spec fn trunc_div(a: int, b: int) -> int {
    let q = abs(a) / abs(b);
    if (a < 0) != (b < 0) { -q } else { q }
}

pub open spec fn abs(a: int) -> int {
    if a < 0 { -a } else { a }
}

pub open spec fn int_result(v: int) -> Option<Result<WgslLiteral, WgslError>> {
    if i64::MIN <= v <= i64::MAX { Some(Ok(WgslLiteral::Integer(v as i64))) } else { None }
}

/// The result of a binary operator on two values. `None` stands for a fault:
/// integer overflow or integer division by zero.
pub open spec fn apply_operator(op: WgslOperator, a: WgslLiteral, b: WgslLiteral, fa: FloatArith)
    -> Option<Result<WgslLiteral, WgslError>>
{
    match (a, b) {
        (WgslLiteral::Integer(x), WgslLiteral::Integer(y)) => match op {
            WgslOperator::Add => int_result(x + y),
            WgslOperator::Subtract => int_result(x - y),
            WgslOperator::Multiply => int_result(x * y),
            WgslOperator::Divide => if y == 0 { None } else { int_result(trunc_div(x as int, y as int)) },
            WgslOperator::BitwiseAnd => Some(Ok(WgslLiteral::Integer(x & y))),
            WgslOperator::BitwiseOr => Some(Ok(WgslLiteral::Integer(x | y))),
        },
        (WgslLiteral::Float(x), WgslLiteral::Float(y)) => if op.is_arithmetic() {
            Some(Ok(WgslLiteral::Float(fa(op, x, y))))
        } else {
            Some(Err(WgslError::InvalidExpression))
        },
        (WgslLiteral::Bool(x), WgslLiteral::Bool(y)) => match op {
            WgslOperator::BitwiseAnd => Some(Ok(WgslLiteral::Bool(x && y))),
            WgslOperator::BitwiseOr => Some(Ok(WgslLiteral::Bool(x || y))),
            _ => Some(Err(WgslError::InvalidExpression)),
        },
        _ => Some(Err(WgslError::InvalidExpression)),
    }
}

/// The result of a unary operator; `None` for the negation of `i64::MIN`.
pub open spec fn apply_unary(op: WgslUnaryOperator, a: WgslLiteral)
    -> Option<Result<WgslLiteral, WgslError>>
{
    match (op, a) {
        (WgslUnaryOperator::Negate, WgslLiteral::Integer(i)) => int_result(-i),
        (WgslUnaryOperator::Negate, WgslLiteral::Float(f)) => Some(
            Ok(WgslLiteral::Float(f ^ 0x8000_0000_0000_0000u64)),
        ),
        (WgslUnaryOperator::Not, WgslLiteral::Bool(v)) => Some(Ok(WgslLiteral::Bool(!v))),
        (WgslUnaryOperator::BitwiseNot, WgslLiteral::Integer(i)) => Some(Ok(WgslLiteral::Integer(!i))),
        _ => Some(Err(WgslError::InvalidExpression)),
    }
}

/// The value of an expression in an environment: `Some(Ok(v))` for a value,
/// `Some(Err(e))` for an error, `None` where evaluation faults (integer
/// overflow or division by zero). Operands are evaluated left to right and
/// the first error wins; `And` and `Or` evaluate their right side only when
/// the left side does not decide.
pub open spec fn eval(e: ExprView, st: WgslWorkspaceState, fa: FloatArith)
    -> Option<Result<WgslLiteral, WgslError>>
    decreases e,
{
    match e {
        ExprView::Literal(l) => Some(Ok(l)),
        ExprView::Reference(name) => match st.lookup(name) {
            Some(v) => Some(Ok(v)),
            None => Some(Err(WgslError::UndefinedVariable)),
        },
        ExprView::Operator(left, operator, right) => match eval(*left, st, fa) {
            Some(Ok(a)) => match eval(*right, st, fa) {
                Some(Ok(b)) => apply_operator(operator, a, b, fa),
                other => other,
            },
            other => other,
        },
        ExprView::Unary(operator, right) => match eval(*right, st, fa) {
            Some(Ok(a)) => apply_unary(operator, a),
            other => other,
        },
        ExprView::Comparison(left, comparison, right) => match eval(*left, st, fa) {
            Some(Ok(a)) => match comparison {
                WgslComparison::And => match a {
                    WgslLiteral::Bool(true) => eval(*right, st, fa),
                    WgslLiteral::Bool(false) => Some(Ok(a)),
                    _ => Some(Err(WgslError::InvalidExpression)),
                },
                WgslComparison::Or => match a {
                    WgslLiteral::Bool(false) => eval(*right, st, fa),
                    WgslLiteral::Bool(true) => Some(Ok(a)),
                    _ => Some(Err(WgslError::InvalidExpression)),
                },
                _ => match eval(*right, st, fa) {
                    Some(Ok(b)) => Some(Ok(WgslLiteral::Bool(compare_spec(comparison, a, b)))),
                    other => other,
                },
            },
            other => other,
        },
        ExprView::Parenthesized(inner) => eval(*inner, st, fa),
    }
}

fn float_magnitude_exec(b: u64) -> (r: u64)
    ensures
        r == float_magnitude(b),
{
    b & 0x7fff_ffff_ffff_ffffu64
}

fn float_key_exec(b: u64) -> (r: i128)
    ensures
        r == float_key(b),
{
    let m = float_magnitude_exec(b);
    if b >> 63u64 == 1u64 { -(m as i128) } else { m as i128 }
}

fn sign_exec(a: i128, b: i128) -> (r: i8)
    ensures
        r as int == sign_of(a - b),
{
    if a < b { -1 } else if a == b { 0 } else { 1 }
}

fn literal_order_exec(a: WgslLiteral, b: WgslLiteral) -> (r: Option<i8>)
    ensures
        match r {
            Some(x) => literal_order(a, b) == Some(x as int),
            None => literal_order(a, b) is None,
        },
{
    match (a, b) {
        (WgslLiteral::Integer(x), WgslLiteral::Integer(y)) => Some(sign_exec(x as i128, y as i128)),
        (WgslLiteral::Float(x), WgslLiteral::Float(y)) => {
            if float_magnitude_exec(x) > 0x7ff0_0000_0000_0000u64 || float_magnitude_exec(y)
                > 0x7ff0_0000_0000_0000u64 {
                None
            } else {
                Some(sign_exec(float_key_exec(x), float_key_exec(y)))
            }
        },
        (WgslLiteral::Bool(x), WgslLiteral::Bool(y)) => Some(
            sign_exec(if x { 1 } else { 0 }, if y { 1 } else { 0 }),
        ),
        _ => {
            let ia: i128 = match a { WgslLiteral::Integer(_) => 0, WgslLiteral::Float(_) => 1, WgslLiteral::Bool(_) => 2 };
            let ib: i128 = match b { WgslLiteral::Integer(_) => 0, WgslLiteral::Float(_) => 1, WgslLiteral::Bool(_) => 2 };
            Some(sign_exec(ia, ib))
        },
    }
}

fn compare_exec(c: WgslComparison, a: WgslLiteral, b: WgslLiteral) -> (r: bool)
    ensures
        r == compare_spec(c, a, b),
{
    let o = literal_order_exec(a, b);
    match c {
        WgslComparison::Equal => o == Some(0i8),
        WgslComparison::NotEqual => o != Some(0i8),
        WgslComparison::LessThan => o == Some(-1i8),
        WgslComparison::LessThanOrEqual => o == Some(-1i8) || o == Some(0i8),
        WgslComparison::GreaterThan => o == Some(1i8),
        WgslComparison::GreaterThanOrEqual => o == Some(1i8) || o == Some(0i8),
        _ => false,
    }
}

fn int_exec(v: Option<i64>) -> (r: Option<Result<WgslLiteral, WgslError>>)
    ensures
        r == match v {
            Some(x) => Some(Ok::<WgslLiteral, WgslError>(WgslLiteral::Integer(x))),
            None => None,
        },
{
    match v {
        Some(x) => Some(Ok(WgslLiteral::Integer(x))),
        None => None,
    }
}

fn apply_operator_exec<F: Fn(WgslOperator, u64, u64) -> u64>(
    op: WgslOperator,
    a: WgslLiteral,
    b: WgslLiteral,
    float_arith: &F,
) -> (r: Option<Result<WgslLiteral, WgslError>>)
    requires
        determinate_arith(float_arith),
    ensures
        r == apply_operator(op, a, b, arith_of(float_arith)),
{
    match (a, b) {
        (WgslLiteral::Integer(x), WgslLiteral::Integer(y)) => match op {
            WgslOperator::Add => int_exec(x.checked_add(y)),
            WgslOperator::Subtract => int_exec(x.checked_sub(y)),
            WgslOperator::Multiply => int_exec(x.checked_mul(y)),
            WgslOperator::Divide => {
                if y == 0 || (x == i64::MIN && y == -1) {
                    None
                } else {
                    let ax: i128 = if x < 0 { -(x as i128) } else { x as i128 };
                    let ay: i128 = if y < 0 { -(y as i128) } else { y as i128 };
                    let q = ax / ay;
                    proof {
                        vstd::arithmetic::div_mod::lemma_div_is_ordered_by_denominator(ax as int, 1, ay as int);
                        vstd::arithmetic::div_mod::lemma_div_basics(ax as int);
                        vstd::arithmetic::div_mod::lemma_div_pos_is_pos(ax as int, ay as int);
                        if ay == 1 {
                            assert(!(x == i64::MIN && y == -1));
                        }
                    }
                    let r: i128 = if (x < 0) != (y < 0) { -q } else { q };
                    if r < i64::MIN as i128 || r > i64::MAX as i128 {
                        None
                    } else {
                        Some(Ok(WgslLiteral::Integer(r as i64)))
                    }
                }
            },
            WgslOperator::BitwiseAnd => Some(Ok(WgslLiteral::Integer(x & y))),
            WgslOperator::BitwiseOr => Some(Ok(WgslLiteral::Integer(x | y))),
        },
        (WgslLiteral::Float(x), WgslLiteral::Float(y)) => match op {
            WgslOperator::BitwiseAnd | WgslOperator::BitwiseOr => Some(Err(WgslError::InvalidExpression)),
            _ => {
                let v = float_arith(op, x, y);
                proof {
                    let w = choose|r: u64| float_arith.ensures((op, x, y), r);
                    assert(float_arith.ensures((op, x, y), w));
                    assert(v == w);
                }
                Some(Ok(WgslLiteral::Float(v)))
            },
        },
        (WgslLiteral::Bool(x), WgslLiteral::Bool(y)) => match op {
            WgslOperator::BitwiseAnd => Some(Ok(WgslLiteral::Bool(x && y))),
            WgslOperator::BitwiseOr => Some(Ok(WgslLiteral::Bool(x || y))),
            _ => Some(Err(WgslError::InvalidExpression)),
        },
        _ => Some(Err(WgslError::InvalidExpression)),
    }
}

fn apply_unary_exec(op: &WgslUnaryOperator, a: WgslLiteral) -> (r: Option<Result<WgslLiteral, WgslError>>)
    ensures
        r == apply_unary(*op, a),
{
    match (op, a) {
        (WgslUnaryOperator::Negate, WgslLiteral::Integer(i)) => if i == i64::MIN { None } else { Some(Ok(WgslLiteral::Integer(-i))) },
        (WgslUnaryOperator::Negate, WgslLiteral::Float(f)) => Some(Ok(WgslLiteral::Float(f ^ 0x8000_0000_0000_0000u64))),
        (WgslUnaryOperator::Not, WgslLiteral::Bool(v)) => Some(Ok(WgslLiteral::Bool(!v))),
        (WgslUnaryOperator::BitwiseNot, WgslLiteral::Integer(i)) => Some(Ok(WgslLiteral::Integer(!i))),
        _ => Some(Err(WgslError::InvalidExpression)),
    }
}

impl WgslExpression {
    /// Evaluates the expression, reporting a fault (integer overflow or
    /// integer division by zero) as `None`.
    pub fn try_evaluate<F: Fn(WgslOperator, u64, u64) -> u64>(
        &self,
        state: &WgslWorkspaceState,
        float_arith: &F,
    ) -> (r: Option<Result<WgslLiteral, WgslError>>)
        requires
            determinate_arith(float_arith),
        ensures
            r == eval(self.view(), *state, arith_of(float_arith)),
        decreases self,
    {
        match self {
            WgslExpression::Literal(l) => Some(Ok(*l)),
            WgslExpression::Reference(name) => match state.get(name.as_str()) {
                Some(v) => Some(Ok(v)),
                None => Some(Err(WgslError::UndefinedVariable)),
            },
            WgslExpression::Operator { left, operator, right } => match left.try_evaluate(state, float_arith) {
                Some(Ok(a)) => match right.try_evaluate(state, float_arith) {
                    Some(Ok(b)) => apply_operator_exec(*operator, a, b, float_arith),
                    other => other,
                },
                other => other,
            },
            WgslExpression::Unary { operator, right } => match right.try_evaluate(state, float_arith) {
                Some(Ok(a)) => apply_unary_exec(operator, a),
                other => other,
            },
            WgslExpression::Comparison { left, comparison, right } => match left.try_evaluate(state, float_arith) {
                Some(Ok(a)) => match comparison {
                    WgslComparison::And => match a {
                        WgslLiteral::Bool(true) => right.try_evaluate(state, float_arith),
                        WgslLiteral::Bool(false) => Some(Ok(a)),
                        _ => Some(Err(WgslError::InvalidExpression)),
                    },
                    WgslComparison::Or => match a {
                        WgslLiteral::Bool(false) => right.try_evaluate(state, float_arith),
                        WgslLiteral::Bool(true) => Some(Ok(a)),
                        _ => Some(Err(WgslError::InvalidExpression)),
                    },
                    _ => match right.try_evaluate(state, float_arith) {
                        Some(Ok(b)) => Some(Ok(WgslLiteral::Bool(compare_exec(*comparison, a, b)))),
                        other => other,
                    },
                },
                other => other,
            },
            WgslExpression::Parenthesized(inner) => inner.try_evaluate(state, float_arith),
        }
    }

    /// Evaluates the expression in `state`. Faulting inputs (integer overflow,
    /// integer division by zero) are excluded.
    pub fn evaluate<F: Fn(WgslOperator, u64, u64) -> u64>(
        &self,
        state: &WgslWorkspaceState,
        float_arith: &F,
    ) -> (r: Result<WgslLiteral, WgslError>)
        requires
            determinate_arith(float_arith),
            eval(self.view(), *state, arith_of(float_arith)) is Some,
        ensures
            Some(r) == eval(self.view(), *state, arith_of(float_arith)),
    {
        match self.try_evaluate(state, float_arith) {
            Some(r) => r,
            None => Err(WgslError::InvalidExpression),
        }
    }
}

} // verus!
