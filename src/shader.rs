//! The line-directive preprocessor: from shader source to a segment tree.
use vstd::prelude::*;

use crate::error::WgslError;
use crate::expression::WgslExpression;
use crate::parser::{determinate_parse, parse_expression, parse_of, FloatParse};
use crate::segment::{pieces, text_pieces, well_formed, Node, Piece, WgslSegment, WgslSegmentEndReason};
use crate::text::{chars_of, eq_chars, push_str, slice_chars, string_of, trim, trim_chars};

verus! {

/// The mathematical form of an error, with texts as character sequences.
pub ghost enum ErrorView {
    Plain(WgslError),
    UnknownOperation(Seq<char>),
    LeftoverChars(Seq<char>),
}

pub open spec fn error_view(e: WgslError) -> ErrorView {
    match e {
        WgslError::UnknownOperation(s) => ErrorView::UnknownOperation(s@),
        WgslError::LeftoverChars(s) => ErrorView::LeftoverChars(s@),
        _ => ErrorView::Plain(e),
    }
}

/// The error view of a failed expression parse.
pub open spec fn expression_error(x: Result<WgslError, Seq<char>>) -> ErrorView {
    match x {
        Ok(e) => ErrorView::Plain(e),
        Err(t) => ErrorView::LeftoverChars(t),
    }
}

/// A directive line starts with `//:`.
pub open spec fn is_directive(l: Seq<char>) -> bool {
    l.len() >= 3 && l[0] == '/' && l[1] == '/' && l[2] == ':'
}

/// The position of the first space in `s` from `i`, or its length.
pub open spec fn first_space(s: Seq<char>, i: int) -> int
    decreases s.len() - i,
{
    if i < 0 || i >= s.len() {
        s.len() as int
    } else if s[i] == ' ' {
        i
    } else {
        first_space(s, i + 1)
    }
}

/// The keyword of a directive: the text after the marker up to the first space.
pub open spec fn operation_of(l: Seq<char>) -> Seq<char> {
    let rest = l.subrange(3, l.len() as int);
    rest.subrange(0, first_space(rest, 0))
}

/// The parameter of a directive: all the text after the first space.
pub open spec fn parameter_of(l: Seq<char>) -> Seq<char> {
    let rest = l.subrange(3, l.len() as int);
    let k = first_space(rest, 0);
    if k < rest.len() {
        rest.subrange(k + 1, rest.len() as int)
    } else {
        Seq::empty()
    }
}

pub open spec fn prepend(p: Seq<Piece>, r: Result<(Seq<Piece>, WgslSegmentEndReason, int), ErrorView>)
    -> Result<(Seq<Piece>, WgslSegmentEndReason, int), ErrorView>
{
    match r {
        Err(e) => Err(e),
        Ok((rest, reason, k)) => Ok((p + rest, reason, k)),
    }
}

/// Parses the lines from `k` up to the end, an `else` or an `end`: the units
/// of the output, why the run ended, and the index of the next line. An `if`
/// whose body reaches the end of the lines without reading a line is an
/// invalid block, as is a false branch that ends on another `else`.
/// (The bounds tested on `k2` and `k3` always hold; they make termination evident.)
pub open spec fn parse_lines(ls: Seq<Seq<char>>, k: int, fp: FloatParse)
    -> Result<(Seq<Piece>, WgslSegmentEndReason, int), ErrorView>
    decreases ls.len() - k,
{
    if k < 0 || k >= ls.len() {
        Ok((Seq::empty(), WgslSegmentEndReason::EndOfFile, k))
    } else {
        let l = trim(ls[k]);
        if !is_directive(l) {
            prepend(text_pieces(l.push('\n')), parse_lines(ls, k + 1, fp))
        } else {
            let op = operation_of(l);
            let param = parameter_of(l);
            if op == "include"@ {
                prepend(seq![Err(Node::Include(param))], parse_lines(ls, k + 1, fp))
            } else if op == "const"@ {
                prepend(seq![Err(Node::Constant(param))], parse_lines(ls, k + 1, fp))
            } else if op == "else"@ {
                Ok((Seq::empty(), WgslSegmentEndReason::ElseOp, k + 1))
            } else if op == "end"@ {
                Ok((Seq::empty(), WgslSegmentEndReason::EndOp, k + 1))
            } else if op == "if"@ {
                match parse_expression(param, fp) {
                    Err(x) => Err(expression_error(x)),
                    Ok(c) => match parse_lines(ls, k + 1, fp) {
                        Err(e) => Err(e),
                        Ok((t, reason, k2)) => if k2 <= k || k2 > ls.len() {
                            Err(ErrorView::Plain(WgslError::InvalidIfBlock))
                        } else if reason is ElseOp {
                            match parse_lines(ls, k2, fp) {
                                Err(e) => Err(e),
                                Ok((f, reason2, k3)) => if !(reason2 is EndOp || reason2 is EndOfFile) || k3 <= k
                                    || k3 > ls.len() {
                                    Err(ErrorView::Plain(WgslError::InvalidIfBlock))
                                } else {
                                    prepend(seq![Err(Node::Conditional(c, t, Some(f)))], parse_lines(ls, k3, fp))
                                },
                            }
                        } else if reason is EndOp || (reason is EndOfFile && k2 > k + 1) {
                            prepend(seq![Err(Node::Conditional(c, t, None))], parse_lines(ls, k2, fp))
                        } else {
                            Err(ErrorView::Plain(WgslError::InvalidIfBlock))
                        },
                    },
                }
            } else {
                Err(ErrorView::UnknownOperation(op))
            }
        }
    }
}

/// No line of `ls[from..to]` is a directive.
pub open spec fn plain_lines(ls: Seq<Seq<char>>, from: int, to: int) -> bool {
    forall|i: int| from <= i < to ==> !is_directive(trim(#[trigger] ls[i]))
}

pub open spec fn line_views(v: Seq<String>) -> Seq<Seq<char>> {
    Seq::new(v.len(), |i: int| v[i]@)
}

proof fn lemma_prepend_assoc(a: Seq<Piece>, b: Seq<Piece>, r: Result<(Seq<Piece>, WgslSegmentEndReason, int), ErrorView>)
    ensures
        prepend(a, prepend(b, r)) == prepend(a + b, r),
{
    match r {
        Ok((rest, reason, k)) => {
            assert(a + (b + rest) =~= (a + b) + rest);
        },
        Err(_) => {},
    }
}

proof fn lemma_prepend_empty(r: Result<(Seq<Piece>, WgslSegmentEndReason, int), ErrorView>)
    ensures
        prepend(Seq::empty(), r) == r,
{
    match r {
        Ok((rest, reason, k)) => {
            assert(Seq::<Piece>::empty() + rest =~= rest);
        },
        Err(_) => {},
    }
}

impl WgslSegment {
    /// Parses directive and text lines from `*pos` until the lines run out or
    /// an `else` or `end` line is consumed. `*pos` ends after the last line read.
    pub fn from_lines<P: Fn(String) -> u64>(lines: &Vec<String>, pos: &mut usize, float_parse: &P)
        -> (r: Result<(Option<WgslSegment>, WgslSegmentEndReason), WgslError>)
        requires
            *old(pos) <= lines.len(),
            determinate_parse(float_parse),
        ensures
            match r {
                Ok((seg, reason)) => {
                    &&& seg is Some
                    &&& parse_lines(line_views(lines@), *old(pos) as int, parse_of(float_parse)) == Ok::<
                        (Seq<Piece>, WgslSegmentEndReason, int),
                        ErrorView,
                    >((pieces(seg->0), reason, *final(pos) as int))
                    &&& well_formed(seg->0)
                    &&& *old(pos) <= *final(pos) <= lines.len()
                    &&& plain_lines(line_views(lines@), *old(pos) as int, *final(pos) - (if reason is EndOfFile { 0int } else { 1int }))
                        ==> seg->0 is Text
                },
                Err(e) => parse_lines(line_views(lines@), *old(pos) as int, parse_of(float_parse)) == Err::<
                    (Seq<Piece>, WgslSegmentEndReason, int),
                    ErrorView,
                >(error_view(e)),
            },
        decreases lines.len() - *old(pos),
    {
        let ghost ls = line_views(lines@);
        let ghost fp = parse_of(float_parse);
        let ghost k0 = *pos as int;
        let mut segment = WgslSegment::Text(String::new());
        proof {
            assert(plain_lines(ls, k0, k0));
            assert(pieces(segment) =~= Seq::<Piece>::empty());
            lemma_prepend_empty(parse_lines(ls, k0, fp));
        }
        while *pos < lines.len()
            invariant
                ls == line_views(lines@),
                fp == parse_of(float_parse),
                determinate_parse(float_parse),
                k0 <= *pos <= lines.len(),
                k0 == *old(pos),
                well_formed(segment),
                parse_lines(ls, k0, fp) == prepend(pieces(segment), parse_lines(ls, *pos as int, fp)),
                plain_lines(ls, k0, *pos as int) ==> segment is Text,
            decreases lines.len() - *pos,
        {
            let k = *pos;
            let raw = chars_of(lines[k].as_str());
            let line = trim_chars(&raw);
            *pos = k + 1;
            assert(ls[k as int] == lines@[k as int]@);
            let ghost was_plain = plain_lines(ls, k0, k as int);
            proof {
                if plain_lines(ls, k0, k + 1) {
                    assert(was_plain);
                }
            }
            if !(line.len() >= 3 && line[0] == '/' && line[1] == '/' && line[2] == ':') {
                let mut text = line;
                text.push('\n');
                let t = string_of(&text);
                let item = WgslSegment::Text(t);
                proof {
                    lemma_prepend_assoc(pieces(segment), pieces(item), parse_lines(ls, k + 1, fp));
                }
                segment.concat(item);
                continue;
            }
            proof {
                assert(is_directive(trim(ls[k as int])));
                assert(!plain_lines(ls, k0, k + 1));
            }
            let rest = slice_chars(&line, 3, line.len());
            let mut split: usize = 0;
            while split < rest.len() && rest[split] != ' '
                invariant
                    split <= rest.len(),
                    first_space(rest@, 0) == first_space(rest@, split as int),
                decreases rest.len() - split,
            {
                split = split + 1;
            }
            let op = slice_chars(&rest, 0, split);
            let param = if split < rest.len() {
                slice_chars(&rest, split + 1, rest.len())
            } else {
                Vec::new()
            };
            proof {
                assert(rest@ == line@.subrange(3, line@.len() as int));
                assert(op@ == operation_of(line@));
                assert(param@ =~= parameter_of(line@));
            }
            if eq_chars(&op, "include") {
                let item = WgslSegment::Include(string_of(&param));
                proof {
                    assert(pieces(item) == seq![Err::<char, Node>(Node::Include(param@))]);
                    lemma_prepend_assoc(pieces(segment), pieces(item), parse_lines(ls, k + 1, fp));
                }
                segment.concat(item);
            } else if eq_chars(&op, "const") {
                let item = WgslSegment::Constant(string_of(&param));
                proof {
                    lemma_prepend_assoc(pieces(segment), pieces(item), parse_lines(ls, k + 1, fp));
                }
                segment.concat(item);
            } else if eq_chars(&op, "else") {
                proof {
                    assert(pieces(segment) + Seq::<Piece>::empty() =~= pieces(segment));
                }
                return Ok((Some(segment), WgslSegmentEndReason::ElseOp));
            } else if eq_chars(&op, "end") {
                proof {
                    assert(pieces(segment) + Seq::<Piece>::empty() =~= pieces(segment));
                }
                return Ok((Some(segment), WgslSegmentEndReason::EndOp));
            } else if eq_chars(&op, "if") {
                let param_text = string_of(&param);
                let condition = WgslExpression::new(param_text.as_str(), float_parse);
                let condition = match condition {
                    Ok(c) => c,
                    Err(e) => {
                        return Err(e);
                    },
                };
                let (if_true, if_false) = match WgslSegment::from_lines(lines, pos, float_parse) {
                    Err(e) => {
                        return Err(e);
                    },
                    Ok((t, reason)) => {
                        let t = match t {
                            Some(t) => t,
                            None => {
                                return Err(WgslError::InvalidIfBlock);
                            },
                        };
                        match reason {
                            WgslSegmentEndReason::ElseOp => {
                                let ghost k2 = *pos as int;
                                match WgslSegment::from_lines(lines, pos, float_parse) {
                                    Err(e) => {
                                        return Err(e);
                                    },
                                    Ok((f, reason2)) => {
                                        let f = match f {
                                            Some(f) => f,
                                            None => {
                                                return Err(WgslError::InvalidIfBlock);
                                            },
                                        };
                                        match reason2 {
                                            WgslSegmentEndReason::EndOp | WgslSegmentEndReason::EndOfFile => {},
                                            _ => {
                                                return Err(WgslError::InvalidIfBlock);
                                            },
                                        }
                                        (t, Some(Box::new(f)))
                                    },
                                }
                            },
                            WgslSegmentEndReason::EndOp => (t, None),
                            WgslSegmentEndReason::EndOfFile => {
                                if *pos == k + 1 {
                                    return Err(WgslError::InvalidIfBlock);
                                }
                                (t, None)
                            },
                            _ => {
                                return Err(WgslError::InvalidIfBlock);
                            },
                        }
                    },
                };
                let item = WgslSegment::Conditional { condition, if_true: Box::new(if_true), if_false };
                proof {
                    lemma_prepend_assoc(pieces(segment), pieces(item), parse_lines(ls, *pos as int, fp));
                }
                segment.concat(item);
            } else {
                return Err(WgslError::UnknownOperation(string_of(&op)));
            }
        }
        proof {
            assert(pieces(segment) + Seq::<Piece>::empty() =~= pieces(segment));
        }
        Ok((Some(segment), WgslSegmentEndReason::EndOfFile))
    }
}

pub open spec fn strip_cr(l: Seq<char>) -> Seq<char> {
    if l.len() > 0 && l.last() == '\r' {
        l.drop_last()
    } else {
        l
    }
}

/// The lines of `s` from `i`, where `cur` holds the current line so far:
/// split at each line feed, with one carriage return before it removed.
pub open spec fn split_from(s: Seq<char>, i: int, cur: Seq<char>) -> Seq<Seq<char>>
    decreases s.len() - i,
{
    if i < 0 || i >= s.len() {
        seq![strip_cr(cur)]
    } else if s[i] == '\n' {
        seq![strip_cr(cur)] + split_from(s, i + 1, Seq::empty())
    } else {
        split_from(s, i + 1, cur.push(s[i]))
    }
}

/// The lines that hold more than whitespace.
pub open spec fn nonblank(ls: Seq<Seq<char>>) -> Seq<Seq<char>>
    decreases ls.len(),
{
    if ls.len() == 0 {
        ls
    } else if trim(ls[0]).len() == 0 {
        nonblank(ls.drop_first())
    } else {
        seq![ls[0]] + nonblank(ls.drop_first())
    }
}

/// The lines of a shader source that the preprocessor reads.
pub open spec fn source_lines(source: Seq<char>) -> Seq<Seq<char>> {
    nonblank(split_from(source, 0, Seq::empty()))
}

pub open spec fn concat_all(ls: Seq<Seq<char>>) -> Seq<char>
    decreases ls.len(),
{
    if ls.len() == 0 {
        Seq::empty()
    } else {
        concat_all(ls.drop_last()) + ls.last()
    }
}

/// The units of a whole shader, or why it is rejected; lines left after a
/// closing `else` or `end` are rejected with their text run together.
pub open spec fn shader_parse(source: Seq<char>, fp: FloatParse) -> Result<Seq<Piece>, ErrorView> {
    let ls = source_lines(source);
    match parse_lines(ls, 0, fp) {
        Err(e) => Err(e),
        Ok((ps, _, k)) => if 0 <= k < ls.len() {
            Err(ErrorView::LeftoverChars(concat_all(ls.subrange(k, ls.len() as int))))
        } else {
            Ok(ps)
        },
    }
}

proof fn lemma_nonblank_cons(x: Seq<char>, r: Seq<Seq<char>>)
    ensures
        nonblank(seq![x] + r) == (if trim(x).len() == 0 { nonblank(r) } else { seq![x] + nonblank(r) }),
{
    assert((seq![x] + r).drop_first() =~= r);
    assert((seq![x] + r)[0] == x);
}

/// A parsed shader body with the length of its source.
pub struct WgslShader {
    segment: WgslSegment,
    capacity: usize,
}

impl WgslShader {
    /// The units of the shader's output.
    pub closed spec fn view(self) -> Seq<Piece> {
        pieces(self.segment)
    }

    /// The segment tree is well formed.
    pub closed spec fn is_well_formed(self) -> bool {
        well_formed(self.segment)
    }

    pub closed spec fn spec_capacity(self) -> usize {
        self.capacity
    }

    /// Parses a whole shader source. Blank lines are skipped.
    pub fn new<P: Fn(String) -> u64>(source: &str, float_parse: &P) -> (r: Result<Self, WgslError>)
        requires
            determinate_parse(float_parse),
        ensures
            match r {
                Ok(sh) => shader_parse(source@, parse_of(float_parse)) == Ok::<Seq<Piece>, ErrorView>(sh.view())
                    && sh.is_well_formed() && sh.spec_capacity() == source@.len(),
                Err(e) => shader_parse(source@, parse_of(float_parse)) == Err::<Seq<Piece>, ErrorView>(error_view(e)),
            },
    {
        let chars = chars_of(source);
        let ghost sv = chars@;
        let mut lines: Vec<String> = Vec::new();
        let mut cur: Vec<char> = Vec::new();
        let mut i: usize = 0;
        proof {
            assert(line_views(lines@) =~= Seq::<Seq<char>>::empty());
            assert(Seq::<Seq<char>>::empty() + source_lines(sv) =~= source_lines(sv));
        }
        while i < chars.len()
            invariant
                i <= chars.len(),
                sv == chars@,
                sv == source@,
                source_lines(sv) == line_views(lines@) + nonblank(split_from(sv, i as int, cur@)),
            decreases chars.len() - i,
        {
            let c = chars[i];
            if c == '\n' {
                let mut line = cur;
                if line.len() > 0 && line[line.len() - 1] == '\r' {
                    line.pop();
                    proof {
                        assert(line@ =~= cur@.drop_last());
                    }
                }
                let trimmed = trim_chars(&line);
                proof {
                    lemma_nonblank_cons(line@, split_from(sv, i + 1, Seq::empty()));
                }
                if trimmed.len() > 0 {
                    let ghost before = lines@;
                    let st = string_of(&line);
                    lines.push(st);
                    proof {
                        assert(line_views(lines@) =~= line_views(before) + seq![line@]);
                        assert(line_views(before) + (seq![line@] + nonblank(split_from(sv, i + 1, Seq::empty())))
                            =~= line_views(lines@) + nonblank(split_from(sv, i + 1, Seq::empty())));
                    }
                }
                cur = Vec::new();
            } else {
                cur.push(c);
            }
            i = i + 1;
        }
        let mut line = cur;
        if line.len() > 0 && line[line.len() - 1] == '\r' {
            line.pop();
            proof {
                assert(line@ =~= cur@.drop_last());
            }
        }
        let trimmed = trim_chars(&line);
        proof {
            lemma_nonblank_cons(line@, Seq::empty());
            assert(seq![line@] + Seq::<Seq<char>>::empty() =~= seq![line@]);
            assert(nonblank(Seq::<Seq<char>>::empty()) == Seq::<Seq<char>>::empty());
        }
        if trimmed.len() > 0 {
            let ghost before = lines@;
            lines.push(string_of(&line));
            proof {
                assert(line_views(lines@) =~= line_views(before) + seq![line@]);
            }
        } else {
            proof {
                assert(line_views(lines@) + Seq::<Seq<char>>::empty() =~= line_views(lines@));
            }
        }
        let ghost ls = line_views(lines@);
        assert(ls == source_lines(source@));
        let mut pos: usize = 0;
        let segment = match WgslSegment::from_lines(&lines, &mut pos, float_parse) {
            Err(e) => {
                return Err(e);
            },
            Ok((seg, _)) => match seg {
                Some(seg) => seg,
                None => WgslSegment::Text(String::new()),
            },
        };
        if pos < lines.len() {
            let mut rest = String::new();
            let mut k = pos;
            proof {
                assert(ls.subrange(pos as int, pos as int) =~= Seq::<Seq<char>>::empty());
            }
            while k < lines.len()
                invariant
                    pos <= k <= lines.len(),
                    ls == line_views(lines@),
                    rest@ == concat_all(ls.subrange(pos as int, k as int)),
                decreases lines.len() - k,
            {
                push_str(&mut rest, lines[k].as_str());
                proof {
                    assert(ls.subrange(pos as int, k + 1).drop_last() =~= ls.subrange(pos as int, k as int));
                    assert(ls.subrange(pos as int, k + 1).last() == lines@[k as int]@);
                }
                k = k + 1;
            }
            return Err(WgslError::LeftoverChars(rest));
        }
        Ok(WgslShader { segment, capacity: chars.len() })
    }

    /// The segment tree of the shader body.
    pub fn segment(&self) -> (r: &WgslSegment)
        ensures
            pieces(*r) == self.view(),
    {
        &self.segment
    }

    /// The length of the source, a hint for the size of the output.
    pub fn capacity(&self) -> (r: usize)
        ensures
            r == self.spec_capacity(),
    {
        self.capacity
    }
}

} // verus!
