//! The expression parser: recursive descent over the characters of one line,
//! with whitespace removed, binary operators binding to the whole remainder.
use vstd::prelude::*;

use crate::error::{IntErrorKind, WgslError};
use crate::expression::{
    ExprView, WgslComparison, WgslExpression, WgslLiteral, WgslOperator, WgslUnaryOperator,
};
use crate::text::{
    alphabetic_class, alphanumeric_class, chars_of, is_alphabetic, is_alphanumeric, is_ascii_digit,
    is_numeric, is_whitespace, numeric_class, string_of, whitespace_class,
};

verus! {

/// Decoding of a decimal float text (digits with one `.`) into the bit
/// pattern of the nearest binary64 value.
pub type FloatParse = spec_fn(Seq<char>) -> u64;

/// `f` gives one result for each text.
pub open spec fn determinate_parse<P: Fn(String) -> u64>(f: &P) -> bool {
    &&& forall|t: String| #[trigger] f.requires((t,))
    &&& forall|t1: String, t2: String, r1: u64, r2: u64|
        t1@ == t2@ && #[trigger] f.ensures((t1,), r1) && #[trigger] f.ensures((t2,), r2) ==> r1 == r2
}

/// The function that `f` computes on texts.
pub open spec fn parse_of<P: Fn(String) -> u64>(f: &P) -> FloatParse {
    |t: Seq<char>| choose|r: u64| parse_yields(f, t, r)
}

/// `f` gives `r` for some string with the characters `t`.
pub open spec fn parse_yields<P: Fn(String) -> u64>(f: &P, t: Seq<char>, r: u64) -> bool {
    exists|s: String| s@ == t && #[trigger] f.ensures((s,), r)
}

/// The text with every whitespace character removed.
pub open spec fn strip_whitespace(s: Seq<char>) -> Seq<char>
    decreases s.len(),
{
    if s.len() == 0 {
        s
    } else if whitespace_class(s.last()) {
        strip_whitespace(s.drop_last())
    } else {
        strip_whitespace(s.drop_last()).push(s.last())
    }
}

/// The radix that a prefix letter after a leading `0` selects; 0 for none.
pub open spec fn prefix_radix(c: char) -> u32 {
    if c == 'b' || c == 'B' {
        2
    } else if c == 'o' || c == 'O' {
        8
    } else if c == 'x' || c == 'X' {
        16
    } else {
        0
    }
}

/// The value of an ASCII decimal digit below `radix`.
pub open spec fn digit_value(c: char, radix: u32) -> Option<int> {
    if is_ascii_digit(c) && (c as u32 - '0' as u32) < radix {
        Some(c as u32 - '0' as u32)
    } else {
        None
    }
}

/// Reads `t[k..]` in `radix` after `acc`, left to right: the first digit that
/// is invalid, or that makes the value exceed `i64::MAX`, is the error.
pub open spec fn radix_fold(t: Seq<char>, radix: u32, k: int, acc: int) -> Result<int, IntErrorKind>
    decreases t.len() - k,
{
    if k < 0 || k >= t.len() {
        Ok(acc)
    } else {
        match digit_value(t[k], radix) {
            None => Err(IntErrorKind::InvalidDigit),
            Some(d) => {
                let n = acc * radix + d;
                if n > i64::MAX {
                    Err(IntErrorKind::PosOverflow)
                } else {
                    radix_fold(t, radix, k + 1, n)
                }
            },
        }
    }
}

/// A run of decimal digits read as a non-negative `i64` in `radix`.
pub open spec fn int_of(t: Seq<char>, radix: u32) -> Result<int, IntErrorKind> {
    if t.len() == 0 {
        Err(IntErrorKind::Empty)
    } else {
        radix_fold(t, radix, 0, 0)
    }
}

/// Whether a decimal float text is accepted: only ASCII digits and `.`, with
/// at least one digit.
pub open spec fn float_text_ok(t: Seq<char>) -> bool {
    &&& forall|i: int| 0 <= i < t.len() ==> is_ascii_digit(#[trigger] t[i]) || t[i] == '.'
    &&& exists|i: int| 0 <= i < t.len() && is_ascii_digit(#[trigger] t[i])
}

/// Scans the rest of a number literal from `j`: digits are kept, `_` skipped,
/// one `.` allowed, and a radix letter allowed right after a lone `0`.
/// Gives the kept text, whether a `.` was seen, the radix, where the digits
/// start in the kept text, and where the scan stopped.
pub open spec fn scan_number(s: Seq<char>, j: int, buf: Seq<char>, period: bool, radix: u32, start: int)
    -> Result<(Seq<char>, bool, u32, int, int), WgslError>
    decreases s.len() - j,
{
    if j < 0 || j >= s.len() {
        Ok((buf, period, radix, start, j))
    } else {
        let c = s[j];
        if numeric_class(c) {
            scan_number(s, j + 1, buf.push(c), period, radix, start)
        } else if c == '_' {
            scan_number(s, j + 1, buf, period, radix, start)
        } else if c == '.' {
            if period {
                Err(WgslError::DuplicatePeriod)
            } else {
                scan_number(s, j + 1, buf.push(c), true, radix, start)
            }
        } else if prefix_radix(c) != 0 {
            if buf == seq!['0'] {
                scan_number(s, j + 1, buf.push(c), period, prefix_radix(c), 2)
            } else {
                Err(WgslError::InvalidBase)
            }
        } else {
            Ok((buf, period, radix, start, j))
        }
    }
}

/// The literal that a scanned number stands for.
pub open spec fn number_literal(buf: Seq<char>, period: bool, radix: u32, start: int, fp: FloatParse)
    -> Result<WgslLiteral, WgslError>
{
    let t = buf.subrange(start, buf.len() as int);
    if period {
        if float_text_ok(t) {
            Ok(WgslLiteral::Float(fp(t)))
        } else {
            Err(WgslError::ParseFloatError)
        }
    } else {
        match int_of(t, radix) {
            Ok(v) => Ok(WgslLiteral::Integer(v as i64)),
            Err(k) => Err(WgslError::ParseIntError(k)),
        }
    }
}

/// The end of the identifier characters (alphanumeric or `_`) from `j`.
pub open spec fn ident_end(s: Seq<char>, j: int) -> int
    decreases s.len() - j,
{
    if j < 0 || j >= s.len() || !(alphanumeric_class(s[j]) || s[j] == '_') {
        j
    } else {
        ident_end(s, j + 1)
    }
}

pub open spec fn word_view(name: Seq<char>) -> ExprView {
    if name == seq!['t', 'r', 'u', 'e'] {
        ExprView::Literal(WgslLiteral::Bool(true))
    } else if name == seq!['f', 'a', 'l', 's', 'e'] {
        ExprView::Literal(WgslLiteral::Bool(false))
    } else {
        ExprView::Reference(name)
    }
}

pub open spec fn starts_term(c: char) -> bool {
    c == '!' || c == '~' || c == '-' || c == '(' || numeric_class(c) || alphabetic_class(c) || c == '_'
}

pub open spec fn unary_of(c: char) -> WgslUnaryOperator {
    if c == '!' {
        WgslUnaryOperator::Not
    } else if c == '~' {
        WgslUnaryOperator::BitwiseNot
    } else {
        WgslUnaryOperator::Negate
    }
}

/// The binary operator token at `j`, if any, with its width: `Ok` for an
/// arithmetic or bitwise operator, `Err` for a comparison or logical one.
pub open spec fn binary_token(s: Seq<char>, j: int) -> Option<(Result<WgslOperator, WgslComparison>, int)> {
    if j < 0 || j >= s.len() {
        None
    } else {
        let c = s[j];
        let next_is = |x: char| j + 1 < s.len() && s[j + 1] == x;
        if c == '+' {
            Some((Ok(WgslOperator::Add), 1))
        } else if c == '-' {
            Some((Ok(WgslOperator::Subtract), 1))
        } else if c == '*' {
            Some((Ok(WgslOperator::Multiply), 1))
        } else if c == '/' {
            Some((Ok(WgslOperator::Divide), 1))
        } else if c == '&' {
            if next_is('&') { Some((Err(WgslComparison::And), 2)) } else { Some((Ok(WgslOperator::BitwiseAnd), 1)) }
        } else if c == '|' {
            if next_is('|') { Some((Err(WgslComparison::Or), 2)) } else { Some((Ok(WgslOperator::BitwiseOr), 1)) }
        } else if c == '>' {
            if next_is('=') {
                Some((Err(WgslComparison::GreaterThanOrEqual), 2))
            } else {
                Some((Err(WgslComparison::GreaterThan), 1))
            }
        } else if c == '<' {
            if next_is('=') {
                Some((Err(WgslComparison::LessThanOrEqual), 2))
            } else {
                Some((Err(WgslComparison::LessThan), 1))
            }
        } else if c == '!' && next_is('=') {
            Some((Err(WgslComparison::NotEqual), 2))
        } else if c == '=' && next_is('=') {
            Some((Err(WgslComparison::Equal), 2))
        } else {
            None
        }
    }
}

pub open spec fn combine(tok: Result<WgslOperator, WgslComparison>, x: ExprView, y: ExprView) -> ExprView {
    match tok {
        Ok(op) => ExprView::Operator(Box::new(x), op, Box::new(y)),
        Err(c) => ExprView::Comparison(Box::new(x), c, Box::new(y)),
    }
}

/// One term at `i` (which starts a term): a unary operator with its shallow
/// operand, a parenthesized expression, a number, or a word.
pub open spec fn term_at(s: Seq<char>, i: int, fp: FloatParse) -> Result<(ExprView, int), WgslError>
    decreases s.len() - i, 1nat,
{
    if i < 0 || i >= s.len() {
        Err(WgslError::NoExpression)
    } else {
        let c = s[i];
        if c == '!' || c == '~' || c == '-' {
            match parse_at(s, i + 1, true, fp) {
                Err(e) => Err(e),
                Ok(None) => Err(WgslError::NoExpression),
                Ok(Some((x, j))) => Ok((ExprView::Unary(unary_of(c), Box::new(x)), j)),
            }
        } else if c == '(' {
            match parse_at(s, i + 1, false, fp) {
                Err(e) => Err(e),
                Ok(None) => Err(WgslError::NoExpression),
                Ok(Some((x, j))) => if 0 <= j < s.len() && s[j] == ')' {
                    Ok((ExprView::Parenthesized(Box::new(x)), j + 1))
                } else {
                    Err(WgslError::NoClosingParenthesis)
                },
            }
        } else if numeric_class(c) {
            match scan_number(s, i + 1, seq![c], false, 10, 0) {
                Err(e) => Err(e),
                Ok((buf, period, radix, start, j)) => match number_literal(buf, period, radix, start, fp) {
                    Err(e) => Err(e),
                    Ok(l) => Ok((ExprView::Literal(l), j)),
                },
            }
        } else {
            let j = ident_end(s, i + 1);
            Ok((word_view(s.subrange(i, j)), j))
        }
    }
}

/// An expression at `i`: `Ok(None)` where no term starts there. Unless
/// `shallow`, a binary operator after the term takes the whole remainder as
/// its right operand.
pub open spec fn parse_at(s: Seq<char>, i: int, shallow: bool, fp: FloatParse)
    -> Result<Option<(ExprView, int)>, WgslError>
    decreases s.len() - i, 2nat,
{
    if i < 0 || i >= s.len() || !starts_term(s[i]) {
        Ok(None)
    } else {
        match term_at(s, i, fp) {
            Err(e) => Err(e),
            Ok((x, j)) => if shallow || j <= i || j > s.len() {
                Ok(Some((x, j)))
            } else {
                binary_at(s, x, j, fp)
            },
        }
    }
}

/// The continuation after a term `x` that ends at `j`.
pub open spec fn binary_at(s: Seq<char>, x: ExprView, j: int, fp: FloatParse)
    -> Result<Option<(ExprView, int)>, WgslError>
    decreases s.len() - j, 0nat,
{
    match binary_token(s, j) {
        None => Ok(Some((x, j))),
        Some((tok, w)) => if w <= 0 || j < 0 || j + w > s.len() {
            Ok(Some((x, j)))
        } else {
            match parse_at(s, j + w, false, fp) {
                Err(e) => Err(e),
                Ok(None) => Err(WgslError::NoExpression),
                Ok(Some((y, k))) => Ok(Some((combine(tok, x, y), k))),
            }
        },
    }
}

/// The result of parsing a whole line: the expression, or an error; a
/// `Err(Err(t))` is leftover text `t` after a complete expression.
pub open spec fn parse_expression(source: Seq<char>, fp: FloatParse) -> Result<ExprView, Result<WgslError, Seq<char>>> {
    let s = strip_whitespace(source);
    match parse_at(s, 0, false, fp) {
        Err(e) => Err(Ok(e)),
        Ok(None) => Err(Ok(WgslError::NoExpression)),
        Ok(Some((x, j))) => if j < s.len() {
            Err(Err(s.subrange(j, s.len() as int)))
        } else {
            Ok(x)
        },
    }
}

/// `r` is the executable form of the spec outcome `v`.
pub open spec fn outcome_matches(r: Result<Option<(WgslExpression, usize)>, WgslError>, v: Result<Option<(ExprView, int)>, WgslError>) -> bool {
    match (r, v) {
        (Ok(None), Ok(None)) => true,
        (Ok(Some((e, j))), Ok(Some((x, k)))) => e.view() == x && j as int == k,
        (Err(e1), Err(e2)) => e1 == e2,
        _ => false,
    }
}

/// An error that carries no text.
pub open spec fn plain_error(e: WgslError) -> bool {
    !(e is LeftoverChars) && !(e is UnknownOperation)
}

/// `r` is the executable form of the outcome `v` of a whole parse.
pub open spec fn parse_matches(r: Result<WgslExpression, WgslError>, v: Result<ExprView, Result<WgslError, Seq<char>>>) -> bool {
    match r {
        Ok(e) => v == Ok::<ExprView, Result<WgslError, Seq<char>>>(e.view()),
        Err(e) => match e {
            WgslError::LeftoverChars(t) => v == Err::<ExprView, Result<WgslError, Seq<char>>>(Err(t@)),
            _ => v == Err::<ExprView, Result<WgslError, Seq<char>>>(Ok(e)) && plain_error(e),
        },
    }
}

fn strip_chars(source: &str) -> (r: Vec<char>)
    ensures
        r@ == strip_whitespace(source@),
{
    let v = chars_of(source);
    let mut out: Vec<char> = Vec::new();
    let mut k: usize = 0;
    assert(v@.subrange(0, 0) =~= Seq::<char>::empty());
    while k < v.len()
        invariant
            k <= v.len(),
            v@ == source@,
            out@ == strip_whitespace(v@.subrange(0, k as int)),
        decreases v.len() - k,
    {
        let c = v[k];
        proof {
            assert(v@.subrange(0, k + 1).drop_last() =~= v@.subrange(0, k as int));
            assert(v@.subrange(0, k + 1).last() == c);
        }
        if !is_whitespace(c) {
            out.push(c);
        }
        k = k + 1;
    }
    assert(v@.subrange(0, v.len() as int) =~= v@);
    out
}

fn prefix_radix_exec(c: char) -> (r: u32)
    ensures
        r == prefix_radix(c),
{
    if c == 'b' || c == 'B' {
        2
    } else if c == 'o' || c == 'O' {
        8
    } else if c == 'x' || c == 'X' {
        16
    } else {
        0
    }
}

/// Scans a number literal whose first character is at `i`.
fn scan_number_exec(s: &Vec<char>, i: usize) -> (r: Result<(Vec<char>, bool, u32, usize, usize), WgslError>)
    requires
        i < s.len(),
    ensures
        match r {
            Ok((buf, period, radix, start, j)) => {
                &&& scan_number(s@, i + 1, seq![s@[i as int]], false, 10, 0) == Ok::<(Seq<char>, bool, u32, int, int), WgslError>((buf@, period, radix, start as int, j as int))
                &&& i < j <= s.len()
                &&& start <= buf.len()
            },
            Err(e) => scan_number(s@, i + 1, seq![s@[i as int]], false, 10, 0) == Err::<(Seq<char>, bool, u32, int, int), WgslError>(e)
                && plain_error(e),
        },
{
    let mut buf: Vec<char> = Vec::new();
    buf.push(s[i]);
    let mut period = false;
    let mut radix: u32 = 10;
    let mut start: usize = 0;
    let mut j: usize = i + 1;
    proof {
        assert(buf@ =~= seq![s@[i as int]]);
    }
    while j < s.len()
        invariant
            i < j <= s.len(),
            start <= buf.len(),
            scan_number(s@, i + 1, seq![s@[i as int]], false, 10, 0) == scan_number(s@, j as int, buf@, period, radix, start as int),
        decreases s.len() - j,
    {
        let c = s[j];
        if is_numeric(c) {
            buf.push(c);
        } else if c == '_' {
        } else if c == '.' {
            if period {
                return Err(WgslError::DuplicatePeriod);
            }
            buf.push(c);
            period = true;
        } else {
            let pr = prefix_radix_exec(c);
            if pr != 0 {
                if buf.len() == 1 && buf[0] == '0' {
                    proof {
                        assert(buf@ =~= seq!['0']);
                    }
                    buf.push(c);
                    radix = pr;
                    start = 2;
                } else {
                    proof {
                        if buf@ == seq!['0'] {
                            assert(buf@[0] == '0');
                        }
                    }
                    return Err(WgslError::InvalidBase);
                }
            } else {
                return Ok((buf, period, radix, start, j));
            }
        }
        j = j + 1;
    }
    Ok((buf, period, radix, start, j))
}

fn float_text_ok_exec(buf: &Vec<char>, start: usize) -> (r: bool)
    requires
        start <= buf.len(),
    ensures
        r == float_text_ok(buf@.subrange(start as int, buf.len() as int)),
{
    let ghost t = buf@.subrange(start as int, buf.len() as int);
    let mut k: usize = start;
    let mut has_digit = false;
    while k < buf.len()
        invariant
            start <= k <= buf.len(),
            t == buf@.subrange(start as int, buf.len() as int),
            forall|m: int| 0 <= m < k - start ==> is_ascii_digit(#[trigger] t[m]) || t[m] == '.',
            has_digit <==> exists|m: int| 0 <= m < k - start && is_ascii_digit(#[trigger] t[m]),
        decreases buf.len() - k,
    {
        let c = buf[k];
        assert(t[k - start] == c);
        if '0' <= c && c <= '9' {
            has_digit = true;
        } else if c != '.' {
            return false;
        }
        k = k + 1;
    }
    has_digit
}

fn int_of_exec(buf: &Vec<char>, start: usize, radix: u32) -> (r: Result<i64, IntErrorKind>)
    requires
        start <= buf.len(),
        2 <= radix <= 16,
    ensures
        match r {
            Ok(v) => int_of(buf@.subrange(start as int, buf.len() as int), radix) == Ok::<int, IntErrorKind>(v as int),
            Err(e) => int_of(buf@.subrange(start as int, buf.len() as int), radix) == Err::<int, IntErrorKind>(e),
        },
{
    let ghost t = buf@.subrange(start as int, buf.len() as int);
    if start == buf.len() {
        return Err(IntErrorKind::Empty);
    }
    let mut acc: i64 = 0;
    let mut k: usize = start;
    while k < buf.len()
        invariant
            start <= k <= buf.len(),
            start < buf.len(),
            2 <= radix <= 16,
            t == buf@.subrange(start as int, buf.len() as int),
            acc >= 0,
            radix_fold(t, radix, 0, 0) == radix_fold(t, radix, k - start, acc as int),
        decreases buf.len() - k,
    {
        let c = buf[k];
        assert(t[k - start] == c);
        if !('0' <= c && c <= '9') || (c as u32 - '0' as u32) >= radix {
            return Err(IntErrorKind::InvalidDigit);
        }
        let d = (c as u32 - '0' as u32) as i64;
        match acc.checked_mul(radix as i64) {
            None => {
                proof {
                    assert(acc * radix + d > i64::MAX) by (nonlinear_arith)
                        requires acc * radix > i64::MAX, d >= 0;
                }
                return Err(IntErrorKind::PosOverflow);
            },
            Some(m) => match m.checked_add(d) {
                None => {
                    return Err(IntErrorKind::PosOverflow);
                },
                Some(n) => {
                    proof {
                        assert(m >= 0) by (nonlinear_arith)
                            requires m == acc * radix, acc >= 0, radix >= 2;
                    }
                    acc = n;
                },
            },
        }
        k = k + 1;
    }
    Ok(acc)
}

fn number_literal_exec<P: Fn(String) -> u64>(
    buf: &Vec<char>,
    period: bool,
    radix: u32,
    start: usize,
    float_parse: &P,
) -> (r: Result<WgslLiteral, WgslError>)
    requires
        start <= buf.len(),
        radix == 2 || radix == 8 || radix == 10 || radix == 16,
        determinate_parse(float_parse),
    ensures
        r == number_literal(buf@, period, radix, start as int, parse_of(float_parse)),
        r matches Err(e) ==> plain_error(e),
{
    if period {
        if float_text_ok_exec(buf, start) {
            let mut t: Vec<char> = Vec::new();
            let mut k: usize = start;
            while k < buf.len()
                invariant
                    start <= k <= buf.len(),
                    t@ == buf@.subrange(start as int, k as int),
                decreases buf.len() - k,
            {
                t.push(buf[k]);
                proof {
                    assert(t@ =~= buf@.subrange(start as int, k + 1));
                }
                k = k + 1;
            }
            let text = string_of(&t);
            let bits = float_parse(text);
            proof {
                let tv = buf@.subrange(start as int, buf.len() as int);
                assert(parse_yields(float_parse, tv, bits));
                let w = choose|r: u64| parse_yields(float_parse, tv, r);
                assert(parse_yields(float_parse, tv, w));
                let s2 = choose|s2: String| s2@ == tv && #[trigger] float_parse.ensures((s2,), w);
                assert(bits == w);
            }
            Ok(WgslLiteral::Float(bits))
        } else {
            Err(WgslError::ParseFloatError)
        }
    } else {
        match int_of_exec(buf, start, radix) {
            Ok(v) => Ok(WgslLiteral::Integer(v)),
            Err(k) => Err(WgslError::ParseIntError(k)),
        }
    }
}

fn ident_end_exec(s: &Vec<char>, j: usize) -> (r: usize)
    requires
        j <= s.len(),
    ensures
        r as int == ident_end(s@, j as int),
        j <= r <= s.len(),
{
    let mut k = j;
    while k < s.len()
        invariant
            j <= k <= s.len(),
            ident_end(s@, j as int) == ident_end(s@, k as int),
        decreases s.len() - k,
    {
        let c = s[k];
        if !(is_alphanumeric(c) || c == '_') {
            return k;
        }
        k = k + 1;
    }
    k
}

fn word_exec(s: &Vec<char>, i: usize, j: usize) -> (r: WgslExpression)
    requires
        i <= j <= s.len(),
    ensures
        r.view() == word_view(s@.subrange(i as int, j as int)),
{
    let mut name: Vec<char> = Vec::new();
    let mut k = i;
    while k < j
        invariant
            i <= k <= j <= s.len(),
            name@ == s@.subrange(i as int, k as int),
        decreases j - k,
    {
        name.push(s[k]);
        proof {
            assert(name@ =~= s@.subrange(i as int, k + 1));
        }
        k = k + 1;
    }
    let n = name.len();
    if n == 4 && name[0] == 't' && name[1] == 'r' && name[2] == 'u' && name[3] == 'e' {
        assert(name@ =~= seq!['t', 'r', 'u', 'e']);
        WgslExpression::Literal(WgslLiteral::Bool(true))
    } else if n == 5 && name[0] == 'f' && name[1] == 'a' && name[2] == 'l' && name[3] == 's' && name[4] == 'e' {
        assert(name@ =~= seq!['f', 'a', 'l', 's', 'e']);
        WgslExpression::Literal(WgslLiteral::Bool(false))
    } else {
        proof {
            if name@ == seq!['t', 'r', 'u', 'e'] {
                assert(name@[0] == 't' && name@[1] == 'r' && name@[2] == 'u' && name@[3] == 'e');
            }
            if name@ == seq!['f', 'a', 'l', 's', 'e'] {
                assert(name@[0] == 'f' && name@[1] == 'a' && name@[2] == 'l' && name@[3] == 's' && name@[4] == 'e');
            }
        }
        WgslExpression::Reference(string_of(&name))
    }
}

fn binary_token_exec(s: &Vec<char>, j: usize) -> (r: Option<(Result<WgslOperator, WgslComparison>, usize)>)
    ensures
        match r {
            Some((t, w)) => binary_token(s@, j as int) == Some((t, w as int)),
            None => binary_token(s@, j as int) is None,
        },
{
    if j >= s.len() {
        return None;
    }
    let c = s[j];
    let next: char = if j + 1 < s.len() { s[j + 1] } else { ' ' };
    let has_next = j + 1 < s.len();
    if c == '+' {
        Some((Ok(WgslOperator::Add), 1))
    } else if c == '-' {
        Some((Ok(WgslOperator::Subtract), 1))
    } else if c == '*' {
        Some((Ok(WgslOperator::Multiply), 1))
    } else if c == '/' {
        Some((Ok(WgslOperator::Divide), 1))
    } else if c == '&' {
        if has_next && next == '&' { Some((Err(WgslComparison::And), 2)) } else { Some((Ok(WgslOperator::BitwiseAnd), 1)) }
    } else if c == '|' {
        if has_next && next == '|' { Some((Err(WgslComparison::Or), 2)) } else { Some((Ok(WgslOperator::BitwiseOr), 1)) }
    } else if c == '>' {
        if has_next && next == '=' {
            Some((Err(WgslComparison::GreaterThanOrEqual), 2))
        } else {
            Some((Err(WgslComparison::GreaterThan), 1))
        }
    } else if c == '<' {
        if has_next && next == '=' {
            Some((Err(WgslComparison::LessThanOrEqual), 2))
        } else {
            Some((Err(WgslComparison::LessThan), 1))
        }
    } else if c == '!' && has_next && next == '=' {
        Some((Err(WgslComparison::NotEqual), 2))
    } else if c == '=' && has_next && next == '=' {
        Some((Err(WgslComparison::Equal), 2))
    } else {
        None
    }
}

fn term_exec<P: Fn(String) -> u64>(s: &Vec<char>, i: usize, float_parse: &P) -> (r: Result<(WgslExpression, usize), WgslError>)
    requires
        i < s.len(),
        determinate_parse(float_parse),
    ensures
        match r {
            Ok((e, j)) => term_at(s@, i as int, parse_of(float_parse)) == Ok::<(ExprView, int), WgslError>((e.view(), j as int)) && j <= s.len(),
            Err(e) => term_at(s@, i as int, parse_of(float_parse)) == Err::<(ExprView, int), WgslError>(e) && plain_error(e),
        },
    decreases s.len() - i, 1nat,
{
    let c = s[i];
    if c == '!' || c == '~' || c == '-' {
        let op = if c == '!' {
            WgslUnaryOperator::Not
        } else if c == '~' {
            WgslUnaryOperator::BitwiseNot
        } else {
            WgslUnaryOperator::Negate
        };
        match parse_at_exec(s, i + 1, true, float_parse) {
            Err(e) => Err(e),
            Ok(None) => Err(WgslError::NoExpression),
            Ok(Some((x, j))) => Ok((WgslExpression::Unary { operator: op, right: Box::new(x) }, j)),
        }
    } else if c == '(' {
        match parse_at_exec(s, i + 1, false, float_parse) {
            Err(e) => Err(e),
            Ok(None) => Err(WgslError::NoExpression),
            Ok(Some((x, j))) => {
                if j < s.len() && s[j] == ')' {
                    Ok((WgslExpression::Parenthesized(Box::new(x)), j + 1))
                } else {
                    Err(WgslError::NoClosingParenthesis)
                }
            },
        }
    } else if is_numeric(c) {
        match scan_number_exec(s, i) {
            Err(e) => Err(e),
            Ok((buf, period, radix, start, j)) => {
                proof {
                    lemma_scan_radix(s@, i + 1, seq![c], false, 10, 0);
                }
                match number_literal_exec(&buf, period, radix, start, float_parse) {
                    Err(e) => Err(e),
                    Ok(l) => Ok((WgslExpression::Literal(l), j)),
                }
            },
        }
    } else {
        let j = ident_end_exec(s, i + 1);
        Ok((word_exec(s, i, j), j))
    }
}

/// Every radix that a scan ends with is one of the four.
proof fn lemma_scan_radix(s: Seq<char>, j: int, buf: Seq<char>, period: bool, radix: u32, start: int)
    requires
        radix == 2 || radix == 8 || radix == 10 || radix == 16,
    ensures
        match scan_number(s, j, buf, period, radix, start) {
            Ok((_, _, r, _, _)) => r == 2 || r == 8 || r == 10 || r == 16,
            Err(_) => true,
        },
    decreases s.len() - j,
{
    if 0 <= j < s.len() {
        let c = s[j];
        if numeric_class(c) {
            lemma_scan_radix(s, j + 1, buf.push(c), period, radix, start);
        } else if c == '_' {
            lemma_scan_radix(s, j + 1, buf, period, radix, start);
        } else if c == '.' {
            if !period {
                lemma_scan_radix(s, j + 1, buf.push(c), true, radix, start);
            }
        } else if prefix_radix(c) != 0 {
            if buf == seq!['0'] {
                lemma_scan_radix(s, j + 1, buf.push(c), period, prefix_radix(c), 2);
            }
        }
    }
}

fn starts_term_exec(c: char) -> (r: bool)
    ensures
        r == starts_term(c),
{
    c == '!' || c == '~' || c == '-' || c == '(' || is_numeric(c) || is_alphabetic(c) || c == '_'
}

fn parse_at_exec<P: Fn(String) -> u64>(s: &Vec<char>, i: usize, shallow: bool, float_parse: &P)
    -> (r: Result<Option<(WgslExpression, usize)>, WgslError>)
    requires
        determinate_parse(float_parse),
    ensures
        outcome_matches(r, parse_at(s@, i as int, shallow, parse_of(float_parse))),
        r matches Ok(Some((_, j))) ==> j <= s.len(),
        r matches Err(e) ==> plain_error(e),
    decreases s.len() - i, 2nat,
{
    if i >= s.len() || !starts_term_exec(s[i]) {
        return Ok(None);
    }
    match term_exec(s, i, float_parse) {
        Err(e) => Err(e),
        Ok((x, j)) => {
            if shallow || j <= i || j > s.len() {
                Ok(Some((x, j)))
            } else {
                binary_exec(s, x, j, float_parse)
            }
        },
    }
}

fn binary_exec<P: Fn(String) -> u64>(s: &Vec<char>, x: WgslExpression, j: usize, float_parse: &P)
    -> (r: Result<Option<(WgslExpression, usize)>, WgslError>)
    requires
        determinate_parse(float_parse),
        j <= s.len(),
    ensures
        outcome_matches(r, binary_at(s@, x.view(), j as int, parse_of(float_parse))),
        r matches Ok(Some((_, k))) ==> k <= s.len(),
        r matches Err(e) ==> plain_error(e),
    decreases s.len() - j, 0nat,
{
    match binary_token_exec(s, j) {
        None => Ok(Some((x, j))),
        Some((tok, w)) => {
            if w == 0 || j + w > s.len() {
                return Ok(Some((x, j)));
            }
            match parse_at_exec(s, j + w, false, float_parse) {
                Err(e) => Err(e),
                Ok(None) => Err(WgslError::NoExpression),
                Ok(Some((y, k))) => {
                    let e = match tok {
                        Ok(op) => WgslExpression::Operator { left: Box::new(x), operator: op, right: Box::new(y) },
                        Err(c) => WgslExpression::Comparison { left: Box::new(x), comparison: c, right: Box::new(y) },
                    };
                    Ok(Some((e, k)))
                },
            }
        },
    }
}

impl WgslExpression {
    /// Parses one line of expression text. Whitespace anywhere is ignored;
    /// the whole text must form one expression.
    pub fn new<P: Fn(String) -> u64>(source: &str, float_parse: &P) -> (r: Result<WgslExpression, WgslError>)
        requires
            determinate_parse(float_parse),
        ensures
            parse_matches(r, parse_expression(source@, parse_of(float_parse))),
    {
        let s = strip_chars(source);
        match parse_at_exec(&s, 0, false, float_parse) {
            Err(e) => Err(e),
            Ok(None) => Err(WgslError::NoExpression),
            Ok(Some((x, j))) => {
                if j < s.len() {
                    let mut rest: Vec<char> = Vec::new();
                    let mut k = j;
                    while k < s.len()
                        invariant
                            j <= k <= s.len(),
                            rest@ == s@.subrange(j as int, k as int),
                        decreases s.len() - k,
                    {
                        rest.push(s[k]);
                        proof {
                            assert(rest@ =~= s@.subrange(j as int, k + 1));
                        }
                        k = k + 1;
                    }
                    Err(WgslError::LeftoverChars(string_of(&rest)))
                } else {
                    Ok(x)
                }
            },
        }
    }
}

} // verus!
