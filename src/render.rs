//! Rendering a segment tree to text in an environment.
use vstd::prelude::*;

use crate::error::WgslError;
use crate::expression::{arith_of, determinate_arith, eval, float_truthy, FloatArith, WgslLiteral, WgslOperator};
use crate::segment::{lemma_pieces_of_append, pieces, pieces_of, text_pieces, Node, Piece, WgslSegment};
use crate::shader::WgslShader;
use crate::state::WgslWorkspaceState;
use crate::text::{decimal, i64_text, push_str};

verus! {

broadcast use vstd::std_specs::vec::axiom_vec_decreases_to_view, vstd::seq::axiom_seq_index_decreases;

/// The shortest decimal text that reads back as the binary64 value with
/// these bits.
pub type FloatShow = spec_fn(u64) -> Seq<char>;

/// `f` gives one text for each value.
pub open spec fn determinate_show<D: Fn(u64) -> String>(f: &D) -> bool {
    &&& forall|b: u64| #[trigger] f.requires((b,))
    &&& forall|b: u64, r1: String, r2: String| #[trigger] f.ensures((b,), r1) && #[trigger] f.ensures((b,), r2) ==> r1@ == r2@
}

/// `f` gives a string with the characters `t` for `b`.
pub open spec fn show_yields<D: Fn(u64) -> String>(f: &D, b: u64, t: Seq<char>) -> bool {
    exists|s: String| s@ == t && #[trigger] f.ensures((b,), s)
}

/// The function that `f` computes.
pub open spec fn show_of<D: Fn(u64) -> String>(f: &D) -> FloatShow {
    |b: u64| choose|t: Seq<char>| show_yields(f, b, t)
}

/// A value counts as true when it is a non-zero integer, a non-zero float or `true`.
pub open spec fn truthy(v: WgslLiteral) -> bool {
    match v {
        WgslLiteral::Integer(i) => i != 0,
        WgslLiteral::Float(b) => float_truthy(b),
        WgslLiteral::Bool(b) => b,
    }
}

/// The text of a value in a constant declaration.
pub open spec fn literal_text(v: WgslLiteral, fs: FloatShow) -> Seq<char> {
    match v {
        WgslLiteral::Integer(i) => decimal(i as int),
        WgslLiteral::Float(b) => fs(b),
        WgslLiteral::Bool(b) => if b { "true"@ } else { "false"@ },
    }
}

/// The declaration line that a constant renders to.
pub open spec fn constant_line(name: Seq<char>, v: WgslLiteral, fs: FloatShow) -> Seq<char> {
    "const "@ + name + " = "@ + literal_text(v, fs) + ";\n"@
}

/// The units of the first shader in `lib` named `path`.
pub open spec fn find_shader(lib: Seq<(Seq<char>, Seq<Piece>)>, path: Seq<char>) -> Option<Seq<Piece>>
    decreases lib.len(),
{
    if lib.len() == 0 {
        None
    } else if lib[0].0 == path {
        Some(lib[0].1)
    } else {
        find_shader(lib.drop_first(), path)
    }
}

pub open spec fn library(shaders: Seq<(String, WgslShader)>) -> Seq<(Seq<char>, Seq<Piece>)> {
    Seq::new(shaders.len(), |i: int| (shaders[i].0@, shaders[i].1.view()))
}

/// Output of `a` followed by output of `b`; the first error or fault wins.
pub open spec fn then(a: Option<Result<Seq<char>, WgslError>>, b: Option<Result<Seq<char>, WgslError>>)
    -> Option<Result<Seq<char>, WgslError>>
{
    match a {
        Some(Ok(t)) => match b {
            Some(Ok(u)) => Some(Ok(t + u)),
            other => other,
        },
        other => other,
    }
}

/// The text that units render to: `Some(Ok(text))`, `Some(Err(e))` for the
/// first error, `None` for a fault (integer overflow or division by zero in a
/// condition, or includes nested deeper than `depth`).
pub open spec fn render(
    ps: Seq<Piece>,
    depth: nat,
    st: WgslWorkspaceState,
    lib: Seq<(Seq<char>, Seq<Piece>)>,
    fa: FloatArith,
    fs: FloatShow,
) -> Option<Result<Seq<char>, WgslError>>
    decreases depth, ps,
{
    if ps.len() == 0 {
        Some(Ok(Seq::empty()))
    } else {
        let last = match ps.last() {
            Ok(c) => Some(Ok(seq![c])),
            Err(Node::Include(path)) => if depth == 0 {
                None
            } else {
                match find_shader(lib, path) {
                    None => Some(Err(WgslError::NotFound)),
                    Some(body) => then(render(body, (depth - 1) as nat, st, lib, fa, fs), Some(Ok(seq!['\n']))),
                }
            },
            Err(Node::Constant(name)) => match st.lookup(name) {
                None => Some(Err(WgslError::UndefinedVariable)),
                Some(v) => Some(Ok(constant_line(name, v, fs))),
            },
            Err(Node::Conditional(c, t, f)) => match eval(c, st, fa) {
                None => None,
                Some(Err(e)) => Some(Err(e)),
                Some(Ok(v)) => if truthy(v) {
                    render(t, depth, st, lib, fa, fs)
                } else {
                    match f {
                        Some(g) => render(g, depth, st, lib, fa, fs),
                        None => Some(Ok(Seq::empty())),
                    }
                },
            },
        };
        then(render(ps.drop_last(), depth, st, lib, fa, fs), last)
    }
}

pub proof fn lemma_then_assoc(
    a: Option<Result<Seq<char>, WgslError>>,
    b: Option<Result<Seq<char>, WgslError>>,
    c: Option<Result<Seq<char>, WgslError>>,
)
    ensures
        then(then(a, b), c) == then(a, then(b, c)),
{
    match (a, b, c) {
        (Some(Ok(x)), Some(Ok(y)), Some(Ok(z))) => {
            assert((x + y) + z =~= x + (y + z));
        },
        _ => {},
    }
}

proof fn lemma_then_empty(a: Option<Result<Seq<char>, WgslError>>)
    ensures
        then(a, Some(Ok(Seq::empty()))) == a,
        then(Some(Ok(Seq::empty())), a) == a,
{
    match a {
        Some(Ok(x)) => {
            assert(x + Seq::<char>::empty() =~= x);
            assert(Seq::<char>::empty() + x =~= x);
        },
        _ => {},
    }
}

/// Units render one after the other.
pub proof fn lemma_render_append(
    a: Seq<Piece>,
    b: Seq<Piece>,
    depth: nat,
    st: WgslWorkspaceState,
    lib: Seq<(Seq<char>, Seq<Piece>)>,
    fa: FloatArith,
    fs: FloatShow,
)
    ensures
        render(a + b, depth, st, lib, fa, fs) == then(render(a, depth, st, lib, fa, fs), render(b, depth, st, lib, fa, fs)),
    decreases b.len(),
{
    if b.len() == 0 {
        assert(a + b =~= a);
        lemma_then_empty(render(a, depth, st, lib, fa, fs));
    } else {
        assert((a + b).drop_last() =~= a + b.drop_last());
        assert((a + b).last() == b.last());
        lemma_render_append(a, b.drop_last(), depth, st, lib, fa, fs);
        let last = render(seq![b.last()], depth, st, lib, fa, fs);
        assert(seq![b.last()].drop_last() =~= Seq::<Piece>::empty());
        assert(seq![b.last()].last() == b.last());
        assert(render(Seq::<Piece>::empty(), depth, st, lib, fa, fs) == Some(Ok::<Seq<char>, WgslError>(Seq::empty())));
        lemma_then_empty(last);
        lemma_then_assoc(
            render(a, depth, st, lib, fa, fs),
            render(b.drop_last(), depth, st, lib, fa, fs),
            last,
        );
        assert(render(b, depth, st, lib, fa, fs) == then(render(b.drop_last(), depth, st, lib, fa, fs), last));
        assert(render(a + b, depth, st, lib, fa, fs) == then(render(a + b.drop_last(), depth, st, lib, fa, fs), last));
    }
}

/// Text renders to itself.
pub proof fn lemma_render_text(
    t: Seq<char>,
    depth: nat,
    st: WgslWorkspaceState,
    lib: Seq<(Seq<char>, Seq<Piece>)>,
    fa: FloatArith,
    fs: FloatShow,
)
    ensures
        render(text_pieces(t), depth, st, lib, fa, fs) == Some(Ok::<Seq<char>, WgslError>(t)),
    decreases t.len(),
{
    if t.len() > 0 {
        lemma_render_text(t.drop_last(), depth, st, lib, fa, fs);
        let ps = text_pieces(t);
        assert(ps.drop_last() =~= text_pieces(t.drop_last()));
        assert(ps.last() == Ok::<char, Node>(t.last()));
        assert(t.drop_last() + seq![t.last()] =~= t);
    } else {
        assert(text_pieces(t) =~= Seq::<Piece>::empty());
        assert(t =~= Seq::<char>::empty());
    }
}

/// The text that rendering writes before it stops: all of it when rendering
/// succeeds; otherwise the text of the units before the first one that fails,
/// followed by what that unit wrote before it failed.
pub open spec fn written(
    ps: Seq<Piece>,
    depth: nat,
    st: WgslWorkspaceState,
    lib: Seq<(Seq<char>, Seq<Piece>)>,
    fa: FloatArith,
    fs: FloatShow,
) -> Seq<char>
    decreases depth, ps,
{
    if ps.len() == 0 {
        Seq::empty()
    } else {
        match render(ps.drop_last(), depth, st, lib, fa, fs) {
            Some(Ok(t)) => t + match ps.last() {
                Ok(c) => seq![c],
                Err(Node::Include(path)) => if depth == 0 {
                    Seq::empty()
                } else {
                    match find_shader(lib, path) {
                        None => Seq::empty(),
                        Some(body) => match render(body, (depth - 1) as nat, st, lib, fa, fs) {
                            Some(Ok(u)) => u + seq!['\n'],
                            _ => written(body, (depth - 1) as nat, st, lib, fa, fs),
                        },
                    }
                },
                Err(Node::Constant(name)) => match st.lookup(name) {
                    None => Seq::empty(),
                    Some(v) => constant_line(name, v, fs),
                },
                Err(Node::Conditional(c, t, f)) => match eval(c, st, fa) {
                    Some(Ok(v)) => if truthy(v) {
                        written(t, depth, st, lib, fa, fs)
                    } else {
                        match f {
                            Some(g) => written(g, depth, st, lib, fa, fs),
                            None => Seq::empty(),
                        }
                    },
                    _ => Seq::empty(),
                },
            },
            _ => written(ps.drop_last(), depth, st, lib, fa, fs),
        }
    }
}

/// What succeeds writes its whole rendering.
pub proof fn lemma_written_ok(
    ps: Seq<Piece>,
    depth: nat,
    st: WgslWorkspaceState,
    lib: Seq<(Seq<char>, Seq<Piece>)>,
    fa: FloatArith,
    fs: FloatShow,
)
    ensures
        render(ps, depth, st, lib, fa, fs) matches Some(Ok(t)) ==> written(ps, depth, st, lib, fa, fs) == t,
    decreases depth, ps,
{
    if ps.len() > 0 {
        lemma_written_ok(ps.drop_last(), depth, st, lib, fa, fs);
        match ps.last() {
            Err(Node::Include(path)) => {
                if depth > 0 {
                    match find_shader(lib, path) {
                        Some(body) => lemma_written_ok(body, (depth - 1) as nat, st, lib, fa, fs),
                        None => {},
                    }
                }
            },
            Err(Node::Conditional(c, t, f)) => {
                lemma_written_ok(t, depth, st, lib, fa, fs);
                match f {
                    Some(g) => lemma_written_ok(g, depth, st, lib, fa, fs),
                    None => {},
                }
            },
            _ => {},
        }
        match render(ps, depth, st, lib, fa, fs) {
            Some(Ok(t)) => {
                let t0 = render(ps.drop_last(), depth, st, lib, fa, fs)->Some_0->Ok_0;
                match ps.last() {
                    Err(Node::Include(path)) => {
                        if depth > 0 {
                            let body = find_shader(lib, path)->Some_0;
                            let u = render(body, (depth - 1) as nat, st, lib, fa, fs)->Some_0->Ok_0;
                            assert(u + Seq::<char>::empty() + seq!['\n'] =~= u + seq!['\n']);
                        }
                    },
                    _ => {},
                }
            },
            _ => {},
        }
    }
}

/// Units write one after the other, up to the first that fails.
pub proof fn lemma_written_append(
    a: Seq<Piece>,
    b: Seq<Piece>,
    depth: nat,
    st: WgslWorkspaceState,
    lib: Seq<(Seq<char>, Seq<Piece>)>,
    fa: FloatArith,
    fs: FloatShow,
)
    ensures
        written(a + b, depth, st, lib, fa, fs) == match render(a, depth, st, lib, fa, fs) {
            Some(Ok(t)) => t + written(b, depth, st, lib, fa, fs),
            _ => written(a, depth, st, lib, fa, fs),
        },
    decreases b.len(),
{
    if b.len() == 0 {
        assert(a + b =~= a);
        lemma_written_ok(a, depth, st, lib, fa, fs);
        match render(a, depth, st, lib, fa, fs) {
            Some(Ok(t)) => {
                assert(t + Seq::<char>::empty() =~= t);
            },
            _ => {},
        }
    } else {
        assert((a + b).drop_last() =~= a + b.drop_last());
        assert((a + b).last() == b.last());
        lemma_written_append(a, b.drop_last(), depth, st, lib, fa, fs);
        lemma_render_append(a, b.drop_last(), depth, st, lib, fa, fs);
        match render(a, depth, st, lib, fa, fs) {
            Some(Ok(t)) => {
                match render(b.drop_last(), depth, st, lib, fa, fs) {
                    Some(Ok(u)) => {
                        let w = written(b, depth, st, lib, fa, fs);
                        assert(written(b, depth, st, lib, fa, fs) == u + (w.subrange(u.len() as int, w.len() as int)));
                        assert(t + (u + w.subrange(u.len() as int, w.len() as int)) =~= (t + u) + w.subrange(u.len() as int, w.len() as int));
                    },
                    _ => {},
                }
            },
            _ => {},
        }
    }
}

/// `r` reports the rendering outcome `v`, and `out` grew by the text when it
/// succeeded.
pub open spec fn write_matches(r: Option<Result<(), WgslError>>, v: Option<Result<Seq<char>, WgslError>>, before: Seq<char>, after: Seq<char>) -> bool {
    match v {
        Some(Ok(t)) => r == Some(Ok::<(), WgslError>(())) && after == before + t,
        Some(Err(e)) => r == Some(Err::<(), WgslError>(e)),
        None => r is None,
    }
}

fn find_shader_exec<'a>(shaders: &'a Vec<(String, WgslShader)>, path: &String) -> (r: Option<&'a WgslShader>)
    ensures
        match r {
            Some(sh) => find_shader(library(shaders@), path@) == Some(sh.view()),
            None => find_shader(library(shaders@), path@) is None,
        },
{
    let ghost lib = library(shaders@);
    let mut i: usize = 0;
    assert(lib.subrange(0, lib.len() as int) =~= lib);
    while i < shaders.len()
        invariant
            i <= shaders.len(),
            lib == library(shaders@),
            find_shader(lib, path@) == find_shader(lib.subrange(i as int, lib.len() as int), path@),
        decreases shaders.len() - i,
    {
        proof {
            assert(lib.subrange(i as int, lib.len() as int).drop_first() =~= lib.subrange(i + 1, lib.len() as int));
            assert(lib.subrange(i as int, lib.len() as int)[0] == lib[i as int]);
        }
        if shaders[i].0.eq(path) {
            return Some(&shaders[i].1);
        }
        i = i + 1;
    }
    assert(lib.subrange(i as int, lib.len() as int) =~= Seq::<(Seq<char>, Seq<Piece>)>::empty());
    None
}

fn literal_text_exec<D: Fn(u64) -> String>(v: WgslLiteral, float_show: &D) -> (r: String)
    requires
        determinate_show(float_show),
    ensures
        r@ == literal_text(v, show_of(float_show)),
{
    match v {
        WgslLiteral::Integer(i) => i64_text(i),
        WgslLiteral::Float(b) => {
            let t = float_show(b);
            proof {
                assert(show_yields(float_show, b, t@));
                let w = choose|x: Seq<char>| show_yields(float_show, b, x);
                assert(show_yields(float_show, b, w));
                let s2 = choose|s2: String| s2@ == w && #[trigger] float_show.ensures((b,), s2);
                assert(t@ == w);
            }
            t
        },
        WgslLiteral::Bool(b) => {
            let mut r = String::new();
            if b {
                push_str(&mut r, "true");
            } else {
                push_str(&mut r, "false");
            }
            r
        },
    }
}

impl WgslSegment {
    /// Appends the rendering of the segment to `output`. Includes are looked
    /// up by name in `shaders`, at most `depth` levels deep. Reports a fault
    /// (integer overflow or division by zero in a condition, includes nested
    /// too deep) as `None`.
    #[verifier::rlimit(100)]
    pub fn try_write<F: Fn(WgslOperator, u64, u64) -> u64, D: Fn(u64) -> String>(
        &self,
        output: &mut String,
        state: &WgslWorkspaceState,
        shaders: &Vec<(String, WgslShader)>,
        depth: usize,
        float_arith: &F,
        float_show: &D,
    ) -> (r: Option<Result<(), WgslError>>)
        requires
            determinate_arith(float_arith),
            determinate_show(float_show),
        ensures
            write_matches(
                r,
                render(pieces(*self), depth as nat, *state, library(shaders@), arith_of(float_arith), show_of(float_show)),
                old(output)@,
                final(output)@,
            ),
            final(output)@ == old(output)@ + written(
                pieces(*self),
                depth as nat,
                *state,
                library(shaders@),
                arith_of(float_arith),
                show_of(float_show),
            ),
        decreases depth, self,
    {
        let ghost lib = library(shaders@);
        let ghost fa = arith_of(float_arith);
        let ghost fs = show_of(float_show);
        let ghost d = depth as nat;
        proof {
            lemma_written_ok(pieces(*self), d, *state, lib, fa, fs);
            assert forall|x: Seq<char>| #[trigger] (Seq::<char>::empty() + x) == x by {
                assert(Seq::<char>::empty() + x =~= x);
            }
            assert forall|x: Seq<char>| #[trigger] (x + Seq::<char>::empty()) == x by {
                assert(x + Seq::<char>::empty() =~= x);
            }
        }
        match self {
            WgslSegment::Text(t) => {
                push_str(output, t.as_str());
                proof {
                    lemma_render_text(t@, d, *state, lib, fa, fs);
                }

                Some(Ok(()))
            },
            WgslSegment::Sequence(v) => {
                let ghost start = output@;
                let mut k: usize = 0;
                proof {
                    assert(v@.subrange(0, 0) =~= Seq::<WgslSegment>::empty());
                    assert(pieces_of(Seq::<WgslSegment>::empty()) =~= Seq::<Piece>::empty());
                    assert(render(Seq::<Piece>::empty(), d, *state, lib, fa, fs) == Some(Ok::<Seq<char>, WgslError>(Seq::empty())));
                    assert(output@.subrange(start.len() as int, output@.len() as int) =~= Seq::<char>::empty());
                    assert(output@.subrange(0, start.len() as int) =~= start);
                }
                while k < v.len()
                    invariant
                        k <= v.len(),
                        lib == library(shaders@),
                        fa == arith_of(float_arith),
                        fs == show_of(float_show),
                        d == depth as nat,
                        determinate_arith(float_arith),
                        determinate_show(float_show),
                        start == old(output)@,
                        *self == WgslSegment::Sequence(*v),
                        render(pieces_of(v@.subrange(0, k as int)), d, *state, lib, fa, fs) == Some(
                            Ok::<Seq<char>, WgslError>(output@.subrange(start.len() as int, output@.len() as int)),
                        ),
                        output@.len() >= start.len(),
                        output@.subrange(0, start.len() as int) == start,
                    decreases v.len() - k,
                {
                    let ghost before = output@;
                    let ghost done = before.subrange(start.len() as int, before.len() as int);
                    proof {
                        assert(v@.subrange(0, k + 1).drop_last() =~= v@.subrange(0, k as int));
                        assert(v@.subrange(0, k + 1).last() == v@[k as int]);
                        lemma_render_append(
                            pieces_of(v@.subrange(0, k as int)),
                            pieces(v@[k as int]),
                            d, *state, lib, fa, fs,
                        );
                    }
                    match v[k].try_write(output, state, shaders, depth, float_arith, float_show) {

                        Some(Ok(())) => {
                            proof {
                                let added = output@.subrange(before.len() as int, output@.len() as int);
                                assert(output@ == before + added);
                                assert(output@.subrange(start.len() as int, output@.len() as int) =~= done + added);
                                assert(output@.subrange(0, start.len() as int) =~= before.subrange(0, start.len() as int));
                                assert(pieces_of(v@.subrange(0, k + 1)) == pieces_of(v@.subrange(0, k as int)) + pieces(v@[k as int]));
                                let rk = render(pieces(v@[k as int]), d, *state, lib, fa, fs);
                                match rk {
                                    Some(Ok(t)) => {
                                        assert(output@ == before + t);
                                        assert(added =~= t);
                                    },
                                    _ => {},
                                }
                                assert(rk == Some(Ok::<Seq<char>, WgslError>(added)));
                                assert(render(pieces_of(v@.subrange(0, k as int)), d, *state, lib, fa, fs) == Some(Ok::<Seq<char>, WgslError>(done)));
                                assert(render(pieces_of(v@.subrange(0, k + 1)), d, *state, lib, fa, fs) == Some(Ok::<Seq<char>, WgslError>(done + added)));
                            }
                        },
                        other => {
                            proof {
                                let pre = pieces_of(v@.subrange(0, k as int));
                                let pk = pieces(v@[k as int]);
                                lemma_written_append(pre, pk, d, *state, lib, fa, fs);
                                lemma_written_append(
                                    pieces_of(v@.subrange(0, k + 1)),
                                    pieces_of(v@.subrange(k + 1, v@.len() as int)),
                                    d, *state, lib, fa, fs,
                                );
                                assert(before == start + done);
                                lemma_pieces_of_append(v@.subrange(0, k + 1), v@.subrange(k + 1, v@.len() as int));
                                assert(v@.subrange(0, k + 1) + v@.subrange(k + 1, v@.len() as int) =~= v@);
                                assert(pieces_of(v@.subrange(0, k + 1)) == pieces_of(v@.subrange(0, k as int)) + pieces(v@[k as int]));
                                lemma_render_append(
                                    pieces_of(v@.subrange(0, k + 1)),
                                    pieces_of(v@.subrange(k + 1, v@.len() as int)),
                                    d, *state, lib, fa, fs,
                                );
                                assert(output@ =~= start + (done + written(pk, d, *state, lib, fa, fs)));
                            }
                            return other;
                        },
                    }
                    k = k + 1;
                }
                proof {
                    assert(v@.subrange(0, v@.len() as int) =~= v@);
                    assert(output@ =~= start + output@.subrange(start.len() as int, output@.len() as int));
                }

                Some(Ok(()))
            },
            WgslSegment::Include(path) => {
                let ghost empty_render = render(Seq::<Piece>::empty(), d, *state, lib, fa, fs);
                proof {
                    assert(pieces(*self).drop_last() =~= Seq::<Piece>::empty());
                    assert(empty_render == Some(Ok::<Seq<char>, WgslError>(Seq::empty())));
                    let body = find_shader(lib, path@);
                    if depth > 0 {
                        match body {
                            Some(b) => lemma_then_empty(then(render(b, (d - 1) as nat, *state, lib, fa, fs), Some(Ok(seq!['\n'])))),
                            None => lemma_then_empty(Some(Err(WgslError::NotFound))),
                        }
                    }
                }
                if depth == 0 {
                    return None;
                }
                match find_shader_exec(shaders, path) {
                    None => Some(Err(WgslError::NotFound)),
                    Some(sh) => {
                        let ghost before = output@;
                        match sh.segment().try_write(output, state, shaders, depth - 1, float_arith, float_show) {

                            Some(Ok(())) => {
                                let ghost mid = output@;
                                push_str(output, "\n");
                                proof {
                                    reveal_strlit("\n");
                                    let rb = render(sh.view(), (d - 1) as nat, *state, lib, fa, fs);
                                    match rb {
                                        Some(Ok(t)) => {
                                            assert(mid == before + t);
                                            assert(mid.subrange(before.len() as int, mid.len() as int) =~= t);
                                        },
                                        _ => {},
                                    }
                                    assert(output@ =~= before + (mid.subrange(before.len() as int, mid.len() as int) + seq!['\n']));
                                }

                                Some(Ok(()))
                            },
                            other => other,
                        }
                    },
                }
            },
            WgslSegment::Constant(name) => {
                proof {
                    assert(pieces(*self).drop_last() =~= Seq::<Piece>::empty());
                    assert(render(Seq::<Piece>::empty(), d, *state, lib, fa, fs) == Some(Ok::<Seq<char>, WgslError>(Seq::empty())));
                }
                match state.get(name.as_str()) {
                    None => Some(Err(WgslError::UndefinedVariable)),
                    Some(value) => {
                        let ghost before = output@;
                        let text = literal_text_exec(value, float_show);
                        push_str(output, "const ");
                        push_str(output, name.as_str());
                        push_str(output, " = ");
                        push_str(output, text.as_str());
                        push_str(output, ";\n");
                        proof {
                            assert(output@ =~= before + constant_line(name@, value, fs));
                            assert(Seq::<char>::empty() + constant_line(name@, value, fs) =~= constant_line(name@, value, fs));
                            assert(render(Seq::<Piece>::empty(), d, *state, lib, fa, fs) == Some(Ok::<Seq<char>, WgslError>(Seq::empty())));
                        }

                        Some(Ok(()))
                    },
                }
            },
            WgslSegment::Conditional { condition, if_true, if_false } => {
                proof {
                    assert(pieces(*self).drop_last() =~= Seq::<Piece>::empty());
                    assert(render(Seq::<Piece>::empty(), d, *state, lib, fa, fs) == Some(Ok::<Seq<char>, WgslError>(Seq::empty())));
                    lemma_then_empty(render(pieces(**if_true), d, *state, lib, fa, fs));
                    lemma_then_empty(Some(Ok(Seq::<char>::empty())));
                    match eval(condition.view(), *state, fa) {
                        Some(Err(e)) => lemma_then_empty(Some(Err(e))),
                        _ => {},
                    }
                    match if_false {
                        Some(g) => lemma_then_empty(render(pieces(**g), d, *state, lib, fa, fs)),
                        None => {},
                    }
                }
                match condition.try_evaluate(state, float_arith) {
                    None => None,
                    Some(Err(e)) => Some(Err(e)),
                    Some(Ok(v)) => {
                        let is_true = match v {
                            WgslLiteral::Integer(i) => i != 0,
                            WgslLiteral::Float(b) => b & 0x7fff_ffff_ffff_ffffu64 != 0,
                            WgslLiteral::Bool(b) => b,
                        };
                        if is_true {
                            if_true.try_write(output, state, shaders, depth, float_arith, float_show)
                        } else {
                            match if_false {
                                Some(g) => g.try_write(output, state, shaders, depth, float_arith, float_show),
                                None => {
                                    proof {
                                        assert(output@ =~= old(output)@ + Seq::<char>::empty());
                                    }

                                    Some(Ok(()))
                                },
                            }
                        }
                    },
                }
            },
        }
    }

    /// Appends the rendering of the segment to `output`; faulting inputs
    /// (integer overflow or division by zero in a condition, includes nested
    /// deeper than `depth`) are excluded.
    pub fn write<F: Fn(WgslOperator, u64, u64) -> u64, D: Fn(u64) -> String>(
        &self,
        output: &mut String,
        state: &WgslWorkspaceState,
        shaders: &Vec<(String, WgslShader)>,
        depth: usize,
        float_arith: &F,
        float_show: &D,
    ) -> (r: Result<(), WgslError>)
        requires
            determinate_arith(float_arith),
            determinate_show(float_show),
            render(pieces(*self), depth as nat, *state, library(shaders@), arith_of(float_arith), show_of(float_show)) is Some,
        ensures
            write_matches(
                Some(r),
                render(pieces(*self), depth as nat, *state, library(shaders@), arith_of(float_arith), show_of(float_show)),
                old(output)@,
                final(output)@,
            ),
            final(output)@ == old(output)@ + written(
                pieces(*self),
                depth as nat,
                *state,
                library(shaders@),
                arith_of(float_arith),
                show_of(float_show),
            ),
    {
        match self.try_write(output, state, shaders, depth, float_arith, float_show) {
            Some(r) => r,
            None => Err(WgslError::NotFound),
        }
    }
}

impl WgslShader {
    /// The rendered text of the shader, `None` on a fault.
    pub fn evaluate<F: Fn(WgslOperator, u64, u64) -> u64, D: Fn(u64) -> String>(
        &self,
        state: &WgslWorkspaceState,
        shaders: &Vec<(String, WgslShader)>,
        depth: usize,
        float_arith: &F,
        float_show: &D,
    ) -> (r: Option<Result<String, WgslError>>)
        requires
            determinate_arith(float_arith),
            determinate_show(float_show),
        ensures
            match render(self.view(), depth as nat, *state, library(shaders@), arith_of(float_arith), show_of(float_show)) {
                Some(Ok(t)) => r matches Some(Ok(s)) && s@ == t,
                Some(Err(e)) => r == Some(Err::<String, WgslError>(e)),
                None => r is None,
            },
    {
        let mut out = String::new();
        match self.segment().try_write(&mut out, state, shaders, depth, float_arith, float_show) {
            Some(Ok(())) => {
                proof {
                    assert(out@ =~= Seq::<char>::empty() + out@);
                }
                Some(Ok(out))
            },
            Some(Err(e)) => Some(Err(e)),
            None => None,
        }
    }
}

} // verus!
