//! Properties that relate several functions of the library.
use vstd::prelude::*;

use crate::expression::{eval, ExprView, FloatArith, WgslLiteral};
use crate::parser::{
    binary_at, binary_token, digit_value, ident_end, parse_at, parse_expression,
    prefix_radix, radix_fold, scan_number, starts_term, strip_whitespace, term_at, FloatParse,
};
use crate::render::{lemma_render_append, lemma_render_text, render, then, FloatShow};
use crate::shader::{is_directive, nonblank, parse_lines, shader_parse, split_from, strip_cr, ErrorView};
use crate::segment::{lemma_text_pieces_append, text_pieces, WgslSegmentEndReason};
use crate::text::{trim, trim_end, trim_start};
use crate::segment::{pieces, Piece, WgslSegment};
use crate::state::WgslWorkspaceState;
use crate::text::{is_ascii_digit, whitespace_class};

verus! {

/// The characters of `t` other than `_`.
pub open spec fn digits_of(t: Seq<char>) -> Seq<char>
    decreases t.len(),
{
    if t.len() == 0 {
        t
    } else if t[0] == '_' {
        digits_of(t.drop_first())
    } else {
        seq![t[0]] + digits_of(t.drop_first())
    }
}

/// The value of decimal digit characters in `radix`, most significant first.
pub open spec fn digits_value(ds: Seq<char>, radix: u32) -> int
    decreases ds.len(),
{
    if ds.len() == 0 {
        0
    } else {
        digits_value(ds.drop_last(), radix) * radix + (ds.last() as u32 - '0' as u32)
    }
}

/// The characters a number literal in `radix` may hold after its prefix.
pub open spec fn literal_body_ok(body: Seq<char>, radix: u32) -> bool {
    forall|i: int| 0 <= i < body.len() ==> #[trigger] body[i] == '_' || digit_value(body[i], radix) is Some
}

proof fn lemma_strip_plain(s: Seq<char>)
    requires
        forall|i: int| 0 <= i < s.len() ==> !whitespace_class(#[trigger] s[i]),
    ensures
        strip_whitespace(s) == s,
    decreases s.len(),
{
    if s.len() > 0 {
        lemma_strip_plain(s.drop_last());
        assert(!whitespace_class(s[s.len() - 1]));
        assert(s.drop_last().push(s.last()) =~= s);
    }
}

proof fn lemma_scan_body(s: Seq<char>, j: int, buf: Seq<char>, radix: u32, start: int)
    requires
        0 <= j <= s.len(),
        literal_body_ok(s.subrange(j, s.len() as int), radix),
        radix == 2 || radix == 8 || radix == 10 || radix == 16,
    ensures
        scan_number(s, j, buf, false, radix, start) == Ok::<(Seq<char>, bool, u32, int, int), crate::error::WgslError>(
            (buf + digits_of(s.subrange(j, s.len() as int)), false, radix, start, s.len() as int),
        ),
    decreases s.len() - j,
{
    let t = s.subrange(j, s.len() as int);
    if j == s.len() {
        assert(t =~= Seq::<char>::empty());
        assert(buf + digits_of(t) =~= buf);
    } else {
        assert(t[0] == s[j]);
        assert(t.drop_first() =~= s.subrange(j + 1, s.len() as int));
        assert(literal_body_ok(s.subrange(j + 1, s.len() as int), radix)) by {
            assert forall|i: int| 0 <= i < s.len() - (j + 1) implies #[trigger] s.subrange(j + 1, s.len() as int)[i] == '_'
                || digit_value(s.subrange(j + 1, s.len() as int)[i], radix) is Some by {
                assert(s.subrange(j + 1, s.len() as int)[i] == t[i + 1]);
            }
        }
        let c = s[j];
        assert(c == '_' || digit_value(c, radix) is Some);
        if c == '_' {
            lemma_scan_body(s, j + 1, buf, radix, start);
        } else {
            assert(is_ascii_digit(c));
            lemma_scan_body(s, j + 1, buf.push(c), radix, start);
            assert(buf.push(c) + digits_of(s.subrange(j + 1, s.len() as int)) =~= buf + (seq![c] + digits_of(
                s.subrange(j + 1, s.len() as int),
            )));
        }
    }
}

proof fn lemma_digits_valid(body: Seq<char>, radix: u32)
    requires
        literal_body_ok(body, radix),
    ensures
        forall|i: int| 0 <= i < digits_of(body).len() ==> digit_value(#[trigger] digits_of(body)[i], radix) is Some,
    decreases body.len(),
{
    if body.len() > 0 {
        assert(literal_body_ok(body.drop_first(), radix)) by {
            assert forall|i: int| 0 <= i < body.len() - 1 implies #[trigger] body.drop_first()[i] == '_'
                || digit_value(body.drop_first()[i], radix) is Some by {
                assert(body.drop_first()[i] == body[i + 1]);
            }
        }
        lemma_digits_valid(body.drop_first(), radix);
        assert(body[0] == '_' || digit_value(body[0], radix) is Some);
        if body[0] != '_' {
            let d = digits_of(body);
            assert forall|i: int| 0 <= i < d.len() implies digit_value(#[trigger] d[i], radix) is Some by {
                if i > 0 {
                    assert(d[i] == digits_of(body.drop_first())[i - 1]);
                }
            }
        }
    }
}

proof fn lemma_digits_value_grows(ds: Seq<char>, k: int, radix: u32)
    requires
        0 <= k <= ds.len(),
        radix >= 1,
        forall|i: int| 0 <= i < ds.len() ==> digit_value(#[trigger] ds[i], radix) is Some,
    ensures
        0 <= digits_value(ds.subrange(0, k), radix) <= digits_value(ds, radix),
    decreases ds.len(),
{
    if ds.len() > 0 {
        if k == ds.len() {
            assert(ds.subrange(0, k) =~= ds);
            lemma_digits_value_grows(ds.drop_last(), k - 1, radix);
            assert(ds.drop_last().subrange(0, k - 1) =~= ds.drop_last());
        } else {
            lemma_digits_value_grows(ds.drop_last(), k, radix);
            assert(ds.drop_last().subrange(0, k) =~= ds.subrange(0, k));
            lemma_digits_value_grows(ds.drop_last(), ds.len() - 1, radix);
            assert(ds.drop_last().subrange(0, ds.len() - 1) =~= ds.drop_last());
        }
        let p = digits_value(ds.drop_last(), radix);
        assert(digit_value(ds[ds.len() - 1], radix) is Some);
        assert(p * radix >= p) by (nonlinear_arith)
            requires p >= 0, radix >= 1;
    } else {
        assert(ds.subrange(0, k) =~= ds);
    }
}

proof fn lemma_fold_digits(ds: Seq<char>, k: int, radix: u32)
    requires
        0 <= k <= ds.len(),
        radix >= 1,
        forall|i: int| 0 <= i < ds.len() ==> digit_value(#[trigger] ds[i], radix) is Some,
        digits_value(ds, radix) <= i64::MAX,
    ensures
        radix_fold(ds, radix, k, digits_value(ds.subrange(0, k), radix)) == Ok::<int, crate::error::IntErrorKind>(
            digits_value(ds, radix),
        ),
    decreases ds.len() - k,
{
    if k == ds.len() {
        assert(ds.subrange(0, k) =~= ds);
    } else {
        assert(ds.subrange(0, k + 1).drop_last() =~= ds.subrange(0, k));
        assert(ds.subrange(0, k + 1).last() == ds[k]);
        lemma_digits_value_grows(ds, k + 1, radix);
        lemma_fold_digits(ds, k + 1, radix);
    }
}

/// A number literal made of digits below the radix and `_` separators, after
/// an optional `0b`, `0o` or `0x` prefix (in either case), parses to the integer that its
/// digits denote in that radix, separators ignored.
pub proof fn law_integer_literal(prefix: Seq<char>, radix: u32, body: Seq<char>, fp: FloatParse)
    requires
        (prefix == Seq::<char>::empty() && radix == 10) || (prefix.len() == 2 && prefix[0] == '0' && prefix_radix(
            prefix[1],
        ) == radix && radix != 0),
        literal_body_ok(body, radix),
        prefix.len() == 0 ==> body.len() > 0 && is_ascii_digit(body[0]),
        digits_of(body).len() > 0,
        digits_value(digits_of(body), radix) <= i64::MAX,
    ensures
        parse_expression(prefix + body, fp) == Ok::<ExprView, Result<crate::error::WgslError, Seq<char>>>(
            ExprView::Literal(WgslLiteral::Integer(digits_value(digits_of(body), radix) as i64)),
        ),
{
    let s = prefix + body;
    assert forall|i: int| 0 <= i < s.len() implies !whitespace_class(#[trigger] s[i]) by {
        if i >= prefix.len() {
            assert(s[i] == body[i - prefix.len()]);
        }
    }
    lemma_strip_plain(s);
    let ds = digits_of(body);
    lemma_digits_valid(body, radix);
    if prefix.len() == 0 {
        assert(s =~= body);
        assert(body.drop_first() =~= s.subrange(1, s.len() as int));
        assert(literal_body_ok(s.subrange(1, s.len() as int), radix)) by {
            assert forall|i: int| 0 <= i < s.len() - 1 implies #[trigger] s.subrange(1, s.len() as int)[i] == '_'
                || digit_value(s.subrange(1, s.len() as int)[i], radix) is Some by {
                assert(s.subrange(1, s.len() as int)[i] == body[i + 1]);
            }
        }
        lemma_scan_body(s, 1, seq![s[0]], 10, 0);
        assert(ds == seq![s[0]] + digits_of(s.subrange(1, s.len() as int)));
        assert(ds.subrange(0, ds.len() as int) =~= ds);
    } else {
        assert(s[0] == '0' && s[1] == prefix[1]);
        assert(prefix_radix(s[1]) == radix);
        assert(s.subrange(2, s.len() as int) =~= body);
        lemma_scan_body(s, 2, seq!['0', s[1]], radix, 2);
        assert(scan_number(s, 1, seq![s[0]], false, 10, 0) == scan_number(s, 2, seq!['0', s[1]], false, radix, 2)) by {
            assert(seq![s[0]] =~= seq!['0']);
            assert(seq![s[0]].push(s[1]) =~= seq!['0', s[1]]);
        }
        assert((seq!['0', s[1]] + ds).subrange(2, ds.len() as int + 2) =~= ds);
    }
    assert(ds.subrange(0, 0) =~= Seq::<char>::empty());
    lemma_fold_digits(ds, 0, radix);
    let x = ExprView::Literal(WgslLiteral::Integer(digits_value(ds, radix) as i64));
    assert(term_at(s, 0, fp) == Ok::<(ExprView, int), crate::error::WgslError>((x, s.len() as int)));
    assert(binary_token(s, s.len() as int) is None);
}

/// Concatenation keeps output order whatever the grouping: where `xy`, `yz`
/// and the two results stand for what `concat` builds from `x`, `y` and `z`
/// (their units are the units of the parts, in order), `(x y) z` and
/// `x (y z)` render the same text as `x`, `y` and `z` rendered in turn.
pub proof fn law_concat_grouping(
    x: WgslSegment,
    y: WgslSegment,
    z: WgslSegment,
    xy: WgslSegment,
    xy_z: WgslSegment,
    yz: WgslSegment,
    x_yz: WgslSegment,
    depth: nat,
    st: WgslWorkspaceState,
    lib: Seq<(Seq<char>, Seq<Piece>)>,
    fa: FloatArith,
    fs: FloatShow,
)
    requires
        pieces(xy) == pieces(x) + pieces(y),
        pieces(xy_z) == pieces(xy) + pieces(z),
        pieces(yz) == pieces(y) + pieces(z),
        pieces(x_yz) == pieces(x) + pieces(yz),
    ensures
        render(pieces(xy_z), depth, st, lib, fa, fs) == render(pieces(x_yz), depth, st, lib, fa, fs),
        render(pieces(xy_z), depth, st, lib, fa, fs) == then(
            render(pieces(x), depth, st, lib, fa, fs),
            then(render(pieces(y), depth, st, lib, fa, fs), render(pieces(z), depth, st, lib, fa, fs)),
        ),
{
    let (rx, ry, rz) = (
        render(pieces(x), depth, st, lib, fa, fs),
        render(pieces(y), depth, st, lib, fa, fs),
        render(pieces(z), depth, st, lib, fa, fs),
    );
    lemma_render_append(pieces(x), pieces(y), depth, st, lib, fa, fs);
    lemma_render_append(pieces(xy), pieces(z), depth, st, lib, fa, fs);
    lemma_render_append(pieces(y), pieces(z), depth, st, lib, fa, fs);
    lemma_render_append(pieces(x), pieces(yz), depth, st, lib, fa, fs);
    crate::render::lemma_then_assoc(rx, ry, rz);
}

/// A name bound in neither tier is an error when evaluated as a reference
/// and when rendered as a constant; it never stands for a default value.
pub proof fn law_undefined_name(
    name: Seq<char>,
    depth: nat,
    st: WgslWorkspaceState,
    lib: Seq<(Seq<char>, Seq<Piece>)>,
    fa: FloatArith,
    fs: FloatShow,
)
    requires
        st.lookup(name) is None,
    ensures
        eval(ExprView::Reference(name), st, fa) == Some(
            Err::<WgslLiteral, crate::error::WgslError>(crate::error::WgslError::UndefinedVariable),
        ),
        render(seq![Err(crate::segment::Node::Constant(name))], depth, st, lib, fa, fs) == Some(
            Err::<Seq<char>, crate::error::WgslError>(crate::error::WgslError::UndefinedVariable),
        ),
{
    let ps: Seq<Piece> = seq![Err(crate::segment::Node::Constant(name))];
    assert(ps.drop_last() =~= Seq::<Piece>::empty());
    assert(render(Seq::<Piece>::empty(), depth, st, lib, fa, fs) == Some(Ok::<Seq<char>, crate::error::WgslError>(Seq::empty())));
}

/// `s` between a pair of parentheses.
pub open spec fn wrap(s: Seq<char>) -> Seq<char> {
    seq!['('] + s + seq![')']
}

proof fn lemma_wrap_index(s: Seq<char>)
    ensures
        wrap(s).len() == s.len() + 2,
        wrap(s)[0] == '(',
        wrap(s)[s.len() as int + 1] == ')',
        forall|k: int| 0 <= k < s.len() ==> #[trigger] wrap(s)[k + 1] == s[k],
{
    assert forall|k: int| 0 <= k < s.len() implies #[trigger] wrap(s)[k + 1] == s[k] by {
        assert((seq!['('] + s)[k + 1] == s[k]);
    }
}

proof fn lemma_shift_scan(s: Seq<char>, j: int, buf: Seq<char>, period: bool, radix: u32, start: int)
    requires
        0 <= j <= s.len(),
    ensures
        match scan_number(s, j, buf, period, radix, start) {
            Ok((b, p, r, st, e)) => j <= e <= s.len() && scan_number(wrap(s), j + 1, buf, period, radix, start) == Ok::<
                (Seq<char>, bool, u32, int, int),
                crate::error::WgslError,
            >((b, p, r, st, e + 1)),
            Err(x) => scan_number(wrap(s), j + 1, buf, period, radix, start) == Err::<
                (Seq<char>, bool, u32, int, int),
                crate::error::WgslError,
            >(x),
        },
    decreases s.len() - j,
{
    lemma_wrap_index(s);
    if j < s.len() {
        let c = s[j];
        assert(wrap(s)[j + 1] == c);
        lemma_shift_scan(s, j + 1, buf.push(c), period, radix, start);
        lemma_shift_scan(s, j + 1, buf, period, radix, start);
        lemma_shift_scan(s, j + 1, buf.push(c), true, radix, start);
        lemma_shift_scan(s, j + 1, buf.push(c), period, prefix_radix(c), 2);
    }
}

proof fn lemma_shift_ident(s: Seq<char>, j: int)
    requires
        0 <= j <= s.len(),
    ensures
        ident_end(s, j) <= s.len(),
        j <= ident_end(s, j),
        ident_end(wrap(s), j + 1) == ident_end(s, j) + 1,
    decreases s.len() - j,
{
    lemma_wrap_index(s);
    if j < s.len() {
        assert(wrap(s)[j + 1] == s[j]);
        lemma_shift_ident(s, j + 1);
    }
}

proof fn lemma_shift_token(s: Seq<char>, j: int)
    requires
        0 <= j <= s.len(),
    ensures
        binary_token(wrap(s), j + 1) == binary_token(s, j),
{
    lemma_wrap_index(s);
    if j < s.len() {
        assert(wrap(s)[j + 1] == s[j]);
        if j + 1 < s.len() {
            assert(wrap(s)[j + 2] == s[j + 1]);
        }
    }
}

proof fn lemma_shift_term(s: Seq<char>, i: int, fp: FloatParse)
    requires
        0 <= i < s.len(),
    ensures
        match term_at(s, i, fp) {
            Ok((x, j)) => i < j <= s.len() && term_at(wrap(s), i + 1, fp) == Ok::<(ExprView, int), crate::error::WgslError>(
                (x, j + 1),
            ),
            Err(_) => true,
        },
    decreases s.len() - i, 1nat,
{
    lemma_wrap_index(s);
    let c = s[i];
    assert(wrap(s)[i + 1] == c);
    if c == '!' || c == '~' || c == '-' || c == '(' {
        lemma_shift_parse(s, i + 1, c != '(', fp);
        match parse_at(s, i + 1, c != '(', fp) {
            Ok(Some((x, j))) => {
                if c == '(' && 0 <= j < s.len() {
                    assert(wrap(s)[j + 1] == s[j]);
                }
            },
            _ => {},
        }
    } else if crate::text::numeric_class(c) {
        lemma_shift_scan(s, i + 1, seq![c], false, 10, 0);
    } else {
        lemma_shift_ident(s, i + 1);
        let j = ident_end(s, i + 1);
        assert(wrap(s).subrange(i + 1, j + 1) =~= s.subrange(i, j)) by {
            assert forall|k: int| 0 <= k < j - i implies wrap(s).subrange(i + 1, j + 1)[k] == s.subrange(i, j)[k] by {
                assert(wrap(s)[i + 1 + k] == s[i + k]);
            }
        }
    }
}

proof fn lemma_shift_parse(s: Seq<char>, i: int, shallow: bool, fp: FloatParse)
    requires
        0 <= i <= s.len(),
    ensures
        match parse_at(s, i, shallow, fp) {
            Ok(Some((x, j))) => i < j <= s.len() && parse_at(wrap(s), i + 1, shallow, fp) == Ok::<
                Option<(ExprView, int)>,
                crate::error::WgslError,
            >(Some((x, j + 1))),
            _ => true,
        },
    decreases s.len() - i, 2nat,
{
    lemma_wrap_index(s);
    if i < s.len() && starts_term(s[i]) {
        assert(wrap(s)[i + 1] == s[i]);
        lemma_shift_term(s, i, fp);
        match term_at(s, i, fp) {
            Ok((x, j)) => {
                if !shallow {
                    lemma_shift_binary(s, x, j, fp);
                }
            },
            Err(_) => {},
        }
    }
}

proof fn lemma_shift_binary(s: Seq<char>, x: ExprView, j: int, fp: FloatParse)
    requires
        0 <= j <= s.len(),
    ensures
        match binary_at(s, x, j, fp) {
            Ok(Some((y, k))) => j <= k <= s.len() && binary_at(wrap(s), x, j + 1, fp) == Ok::<
                Option<(ExprView, int)>,
                crate::error::WgslError,
            >(Some((y, k + 1))),
            _ => true,
        },
    decreases s.len() - j, 0nat,
{
    lemma_wrap_index(s);
    lemma_shift_token(s, j);
    match binary_token(s, j) {
        Some((tok, w)) => {
            if w > 0 && j + w <= s.len() {
                lemma_shift_parse(s, j + w, false, fp);
            }
        },
        None => {},
    }
}

proof fn lemma_strip_append(a: Seq<char>, b: Seq<char>)
    ensures
        strip_whitespace(a + b) == strip_whitespace(a) + strip_whitespace(b),
    decreases b.len(),
{
    if b.len() == 0 {
        assert(a + b =~= a);
        assert(strip_whitespace(a) + strip_whitespace(b) =~= strip_whitespace(a));
    } else {
        assert((a + b).drop_last() =~= a + b.drop_last());
        assert((a + b).last() == b.last());
        lemma_strip_append(a, b.drop_last());
        if !whitespace_class(b.last()) {
            assert((strip_whitespace(a) + strip_whitespace(b.drop_last())).push(b.last()) =~= strip_whitespace(a)
                + strip_whitespace(b.drop_last()).push(b.last()));
        }
    }
}

proof fn lemma_strip_one(c: char)
    requires
        !whitespace_class(c),
    ensures
        strip_whitespace(seq![c]) == seq![c],
{
    assert(seq![c].drop_last() =~= Seq::<char>::empty());
    assert(seq![c].last() == c);
    assert(strip_whitespace(Seq::<char>::empty()) == Seq::<char>::empty());
    assert(Seq::<char>::empty().push(c) =~= seq![c]);
}

/// Parenthesizing a well-formed expression gives the parenthesized tree of
/// the same expression, and so the same value in every environment.
pub proof fn law_parenthesized(e: Seq<char>, fp: FloatParse, st: WgslWorkspaceState, fa: FloatArith)
    requires
        parse_expression(e, fp) is Ok,
    ensures
        parse_expression(wrap(e), fp) == Ok::<ExprView, Result<crate::error::WgslError, Seq<char>>>(
            ExprView::Parenthesized(Box::new(parse_expression(e, fp)->Ok_0)),
        ),
        eval(parse_expression(wrap(e), fp)->Ok_0, st, fa) == eval(parse_expression(e, fp)->Ok_0, st, fa),
{
    let s = strip_whitespace(e);
    lemma_strip_append(seq!['('], e);
    lemma_strip_append(seq!['('] + e, seq![')']);
    lemma_strip_one('(');
    lemma_strip_one(')');
    assert(strip_whitespace(wrap(e)) == wrap(s));
    let x = parse_expression(e, fp)->Ok_0;
    lemma_shift_parse(s, 0, false, fp);
    let sw = wrap(s);
    lemma_wrap_index(s);
    assert(parse_at(sw, 1, false, fp) == Ok::<Option<(ExprView, int)>, crate::error::WgslError>(
        Some((x, s.len() as int + 1)),
    ));
    let px = ExprView::Parenthesized(Box::new(x));
    assert(term_at(sw, 0, fp) == Ok::<(ExprView, int), crate::error::WgslError>((px, s.len() as int + 2)));
    assert(binary_token(sw, sw.len() as int) is None);
    assert(parse_at(sw, 0, false, fp) == Ok::<Option<(ExprView, int)>, crate::error::WgslError>(
        Some((px, sw.len() as int)),
    ));
}

/// Lines joined, each followed by a line feed.
pub open spec fn joined(ls: Seq<Seq<char>>) -> Seq<char>
    decreases ls.len(),
{
    if ls.len() == 0 {
        Seq::empty()
    } else {
        ls[0] + seq!['\n'] + joined(ls.drop_first())
    }
}

/// A line of plain text that the preprocessor keeps as it is: not empty, no
/// whitespace at either end, no line feed, not a directive.
pub open spec fn plain_line(l: Seq<char>) -> bool {
    &&& l.len() > 0
    &&& !whitespace_class(l[0])
    &&& !whitespace_class(l.last())
    &&& forall|k: int| 0 <= k < l.len() ==> #[trigger] l[k] != '\n'
    &&& !is_directive(l)
}

proof fn lemma_plain_trim(l: Seq<char>)
    requires
        plain_line(l),
    ensures
        trim(l) == l,
        strip_cr(l) == l,
{
    assert(trim_start(l) == l);
    assert(trim_end(l) == l);
}

proof fn lemma_split_suffix(p: Seq<char>, r: Seq<char>, j: int, cur: Seq<char>)
    requires
        0 <= j <= r.len(),
    ensures
        split_from(p + r, p.len() + j, cur) == split_from(r, j, cur),
    decreases r.len() - j,
{
    if j < r.len() {
        assert((p + r)[p.len() + j] == r[j]);
        lemma_split_suffix(p, r, j + 1, cur.push(r[j]));
        lemma_split_suffix(p, r, j + 1, Seq::empty());
    }
}

proof fn lemma_split_line(l: Seq<char>, r: Seq<char>, k: int)
    requires
        0 <= k <= l.len(),
        forall|m: int| 0 <= m < l.len() ==> #[trigger] l[m] != '\n',
    ensures
        split_from(l + seq!['\n'] + r, k, l.subrange(0, k)) == seq![strip_cr(l)] + split_from(
            l + seq!['\n'] + r,
            l.len() as int + 1,
            Seq::empty(),
        ),
    decreases l.len() - k,
{
    let t = l + seq!['\n'] + r;
    if k < l.len() {
        assert(t[k] == l[k]);
        assert(l.subrange(0, k).push(l[k]) =~= l.subrange(0, k + 1));
        lemma_split_line(l, r, k + 1);
    } else {
        assert(t[k] == '\n');
        assert(l.subrange(0, k) =~= l);
    }
}

proof fn lemma_split_joined(ls: Seq<Seq<char>>)
    requires
        forall|i: int| 0 <= i < ls.len() ==> plain_line(#[trigger] ls[i]),
    ensures
        split_from(joined(ls), 0, Seq::empty()) == ls + seq![Seq::<char>::empty()],
    decreases ls.len(),
{
    if ls.len() == 0 {
        assert(strip_cr(Seq::<char>::empty()) == Seq::<char>::empty());
        assert(ls + seq![Seq::<char>::empty()] =~= seq![Seq::<char>::empty()]);
    } else {
        let l = ls[0];
        let r = joined(ls.drop_first());
        assert(plain_line(l));
        lemma_plain_trim(l);
        assert forall|i: int| 0 <= i < ls.drop_first().len() implies plain_line(#[trigger] ls.drop_first()[i]) by {
            assert(ls.drop_first()[i] == ls[i + 1]);
        }
        lemma_split_joined(ls.drop_first());
        assert(l.subrange(0, 0) =~= Seq::<char>::empty());
        lemma_split_line(l, r, 0);
        lemma_split_suffix(l + seq!['\n'], r, 0, Seq::empty());
        assert(l + seq!['\n'] + r == (l + seq!['\n']) + r);
        assert(seq![l] + (ls.drop_first() + seq![Seq::<char>::empty()]) =~= ls + seq![Seq::<char>::empty()]);
    }
}

proof fn lemma_nonblank_plain(ls: Seq<Seq<char>>)
    requires
        forall|i: int| 0 <= i < ls.len() ==> plain_line(#[trigger] ls[i]),
    ensures
        nonblank(ls + seq![Seq::<char>::empty()]) == ls,
    decreases ls.len(),
{
    let t = ls + seq![Seq::<char>::empty()];
    if ls.len() == 0 {
        assert(t.drop_first() =~= Seq::<Seq<char>>::empty());
        assert(trim_start(Seq::<char>::empty()) == Seq::<char>::empty());
        assert(trim_end(Seq::<char>::empty()) == Seq::<char>::empty());
        assert(t[0] == Seq::<char>::empty());
        assert(trim(t[0]).len() == 0);
        assert(nonblank(Seq::<Seq<char>>::empty()) == Seq::<Seq<char>>::empty());
        assert(ls =~= Seq::<Seq<char>>::empty());
    } else {
        assert(t.drop_first() =~= ls.drop_first() + seq![Seq::<char>::empty()]);
        assert forall|i: int| 0 <= i < ls.drop_first().len() implies plain_line(#[trigger] ls.drop_first()[i]) by {
            assert(ls.drop_first()[i] == ls[i + 1]);
        }
        lemma_nonblank_plain(ls.drop_first());
        assert(t[0] == ls[0]);
        assert(plain_line(ls[0]));
        lemma_plain_trim(ls[0]);
        assert(trim(t[0]).len() != 0);
        assert(nonblank(t) == seq![t[0]] + nonblank(t.drop_first()));
        assert(seq![ls[0]] + ls.drop_first() =~= ls);
    }
}

proof fn lemma_parse_plain(ls: Seq<Seq<char>>, k: int, fp: FloatParse)
    requires
        0 <= k <= ls.len(),
        forall|i: int| 0 <= i < ls.len() ==> plain_line(#[trigger] ls[i]),
    ensures
        parse_lines(ls, k, fp) == Ok::<(Seq<Piece>, WgslSegmentEndReason, int), ErrorView>(
            (text_pieces(joined(ls.subrange(k, ls.len() as int))), WgslSegmentEndReason::EndOfFile, ls.len() as int),
        ),
    decreases ls.len() - k,
{
    let rest = ls.subrange(k, ls.len() as int);
    if k == ls.len() {
        assert(rest =~= Seq::<Seq<char>>::empty());
        assert(text_pieces(Seq::<char>::empty()) == Seq::<Piece>::empty());
    } else {
        lemma_parse_plain(ls, k + 1, fp);
        assert(plain_line(ls[k]));
        lemma_plain_trim(ls[k]);
        assert(rest[0] == ls[k]);
        assert(rest.drop_first() =~= ls.subrange(k + 1, ls.len() as int));
        let tail = joined(ls.subrange(k + 1, ls.len() as int));
        lemma_text_pieces_append(ls[k].push('\n'), tail);
        assert(ls[k].push('\n') =~= ls[k] + seq!['\n']);
    }
}

/// A shader whose source is plain text lines, each without surrounding
/// whitespace and ending in a line feed, renders back to exactly its source.
pub proof fn law_plain_text_round_trip(
    ls: Seq<Seq<char>>,
    fp: FloatParse,
    depth: nat,
    st: WgslWorkspaceState,
    lib: Seq<(Seq<char>, Seq<Piece>)>,
    fa: FloatArith,
    fs: FloatShow,
)
    requires
        forall|i: int| 0 <= i < ls.len() ==> plain_line(#[trigger] ls[i]),
    ensures
        shader_parse(joined(ls), fp) == Ok::<Seq<Piece>, ErrorView>(text_pieces(joined(ls))),
        render(text_pieces(joined(ls)), depth, st, lib, fa, fs) == Some(Ok::<Seq<char>, crate::error::WgslError>(joined(ls))),
{
    lemma_split_joined(ls);
    lemma_nonblank_plain(ls);
    lemma_parse_plain(ls, 0, fp);
    assert(ls.subrange(0, ls.len() as int) =~= ls);
    lemma_render_text(joined(ls), depth, st, lib, fa, fs);
}

} // verus!
