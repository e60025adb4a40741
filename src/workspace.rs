//! A set of named shaders with an environment, resolving includes by name.
use vstd::prelude::*;

use crate::error::WgslError;
use crate::expression::{arith_of, determinate_arith, WgslLiteral, WgslOperator};
use crate::parser::{determinate_parse, parse_of};
use crate::render::{determinate_show, find_shader, library, render, show_of};
use crate::segment::Piece;
use crate::shader::{error_view, shader_parse, ErrorView, WgslShader};
use crate::state::{lookup_in, WgslWorkspaceState};

verus! {

/// Named shaders and the variables they are rendered with. Where two shaders
/// share a name, the one given last is kept in front.
pub struct WgslWorkspace {
    state: WgslWorkspaceState,
    root: String,
    shaders: Vec<(String, WgslShader)>,
}

impl WgslWorkspace {
    pub closed spec fn library(self) -> Seq<(Seq<char>, Seq<Piece>)> {
        library(self.shaders@)
    }

    pub closed spec fn spec_state(self) -> WgslWorkspaceState {
        self.state
    }

    pub closed spec fn spec_root(self) -> Seq<char> {
        self.root@
    }

    /// A workspace with no shaders and the default variables.
    pub fn scan(root: &str) -> (r: Self)
        ensures
            r.library().len() == 0,
            r.spec_root() == root@,
            r.spec_state().is_default(),
    {
        WgslWorkspace { state: WgslWorkspaceState::default(), root: String::from_str(root), shaders: Vec::new() }
    }

    /// Parses each `(name, source)` pair; the first source that fails to
    /// parse decides the error.
    pub fn from_memory<P: Fn(String) -> u64>(root: &str, shaders: &[(&str, &str)], float_parse: &P) -> (r: Result<Self, WgslError>)
        requires
            determinate_parse(float_parse),
        ensures
            match r {
                Ok(w) => {
                    &&& w.spec_root() == root@
                    &&& w.spec_state().is_default()
                    &&& w.library().len() == shaders@.len()
                    &&& forall|i: int| 0 <= i < shaders@.len() ==> {
                        &&& w.library()[shaders@.len() - 1 - i].0 == (#[trigger] shaders@[i]).0@
                        &&& shader_parse(shaders@[i].1@, parse_of(float_parse)) == Ok::<Seq<Piece>, ErrorView>(
                            w.library()[shaders@.len() - 1 - i].1,
                        )
                    }
                },
                Err(e) => exists|k: int| {
                    &&& 0 <= k < shaders@.len()
                    &&& forall|i: int| 0 <= i < k ==> #[trigger] shader_parse(shaders@[i].1@, parse_of(float_parse)) is Ok
                    &&& shader_parse(shaders@[k].1@, parse_of(float_parse)) == Err::<Seq<Piece>, ErrorView>(error_view(e))
                },
            },
    {
        let mut parsed: Vec<(String, WgslShader)> = Vec::new();
        let mut i: usize = 0;
        while i < shaders.len()
            invariant
                i <= shaders@.len(),
                parsed@.len() == i,
                determinate_parse(float_parse),
                forall|m: int| 0 <= m < i ==> {
                    &&& (#[trigger] parsed@[m]).0@ == shaders@[m].0@
                    &&& shader_parse(shaders@[m].1@, parse_of(float_parse)) == Ok::<Seq<Piece>, ErrorView>(parsed@[m].1.view())
                },
            decreases shaders@.len() - i,
        {
            let (name, source) = shaders[i];
            match WgslShader::new(source, float_parse) {
                Ok(sh) => {
                    parsed.push((String::from_str(name), sh));
                },
                Err(e) => {
                    proof {
                        assert forall|m: int| 0 <= m < i implies #[trigger] shader_parse(shaders@[m].1@, parse_of(float_parse)) is Ok by {
                            assert(parsed@[m].0@ == shaders@[m].0@);
                        }
                    }
                    return Err(e);
                },
            }
            i = i + 1;
        }
        let n = parsed.len();
        let mut reversed: Vec<(String, WgslShader)> = Vec::new();
        while parsed.len() > 0
            invariant
                parsed@.len() + reversed@.len() == n,
                n == shaders@.len(),
                forall|m: int| 0 <= m < parsed@.len() ==> {
                    &&& (#[trigger] parsed@[m]).0@ == shaders@[m].0@
                    &&& shader_parse(shaders@[m].1@, parse_of(float_parse)) == Ok::<Seq<Piece>, ErrorView>(parsed@[m].1.view())
                },
                forall|j: int| 0 <= j < reversed@.len() ==> {
                    &&& (#[trigger] reversed@[j]).0@ == shaders@[n - 1 - j].0@
                    &&& shader_parse(shaders@[n - 1 - j].1@, parse_of(float_parse)) == Ok::<Seq<Piece>, ErrorView>(reversed@[j].1.view())
                },
            decreases parsed.len(),
        {
            let e = parsed.pop().unwrap();
            reversed.push(e);
        }
        let w = WgslWorkspace { state: WgslWorkspaceState::default(), root: String::from_str(root), shaders: reversed };
        proof {
            assert forall|i: int| 0 <= i < shaders@.len() implies {
                &&& w.library()[shaders@.len() - 1 - i].0 == (#[trigger] shaders@[i]).0@
                &&& shader_parse(shaders@[i].1@, parse_of(float_parse)) == Ok::<Seq<Piece>, ErrorView>(
                    w.library()[shaders@.len() - 1 - i].1,
                )
            } by {
                let j = shaders@.len() - 1 - i;
                assert(w.library()[j] == (w.shaders@[j].0@, w.shaders@[j].1.view()));
                assert(reversed@[j].0@ == shaders@[n - 1 - j].0@);
            }
        }
        Ok(w)
    }

    /// Binds a global integer variable.
    pub fn set_global_i64(&mut self, key: &str, value: i64)
        ensures
            final(self).library() == old(self).library(),
            lookup_in(final(self).spec_state().globals(), key@) == Some(WgslLiteral::Integer(value)),
            forall|k: Seq<char>| k != key@ ==> lookup_in(final(self).spec_state().globals(), k) == lookup_in(
                old(self).spec_state().globals(),
                k,
            ),
            final(self).spec_state().overrides() == old(self).spec_state().overrides(),
    {
        self.state.set_global(String::from_str(key), WgslLiteral::Integer(value));
    }

    /// Binds a global float variable, given as its binary64 bit pattern.
    pub fn set_global_float_bits(&mut self, key: &str, bits: u64)
        ensures
            final(self).library() == old(self).library(),
            lookup_in(final(self).spec_state().globals(), key@) == Some(WgslLiteral::Float(bits)),
            forall|k: Seq<char>| k != key@ ==> lookup_in(final(self).spec_state().globals(), k) == lookup_in(
                old(self).spec_state().globals(),
                k,
            ),
            final(self).spec_state().overrides() == old(self).spec_state().overrides(),
    {
        self.state.set_global(String::from_str(key), WgslLiteral::Float(bits));
    }

    /// Binds a global boolean variable.
    pub fn set_global_bool(&mut self, key: &str, value: bool)
        ensures
            final(self).library() == old(self).library(),
            lookup_in(final(self).spec_state().globals(), key@) == Some(WgslLiteral::Bool(value)),
            forall|k: Seq<char>| k != key@ ==> lookup_in(final(self).spec_state().globals(), k) == lookup_in(
                old(self).spec_state().globals(),
                k,
            ),
            final(self).spec_state().overrides() == old(self).spec_state().overrides(),
    {
        self.state.set_global(String::from_str(key), WgslLiteral::Bool(value));
    }

    /// The variables that expressions see.
    pub fn state(&self) -> (r: &WgslWorkspaceState)
        ensures
            *r == self.spec_state(),
    {
        &self.state
    }

    /// The rendered text of the shader named `path`, with includes nested at
    /// most as deep as there are shaders; `None` on a fault (integer overflow
    /// or division by zero in a condition, an include cycle).
    pub fn try_get_shader<F: Fn(WgslOperator, u64, u64) -> u64, D: Fn(u64) -> String>(
        &self,
        path: &str,
        float_arith: &F,
        float_show: &D,
    ) -> (r: Option<Result<String, WgslError>>)
        requires
            determinate_arith(float_arith),
            determinate_show(float_show),
        ensures
            match find_shader(self.library(), path@) {
                None => r == Some(Err::<String, WgslError>(WgslError::NotFound)),
                Some(body) => match render(
                    seq![Err(crate::segment::Node::Include(path@))],
                    self.library().len() + 1,
                    self.spec_state(),
                    self.library(),
                    arith_of(float_arith),
                    show_of(float_show),
                ) {
                    Some(Ok(t)) => r matches Some(Ok(s)) && s@ + seq!['\n'] == t,
                    Some(Err(e)) => r == Some(Err::<String, WgslError>(e)),
                    None => r is None,
                },
            },
    {
        let name = String::from_str(path);
        let mut i: usize = 0;
        let ghost lib = self.library();
        assert(lib.subrange(0, lib.len() as int) =~= lib);
        while i < self.shaders.len()
            invariant
                i <= self.shaders.len(),
                lib == self.library(),
                name@ == path@,
                determinate_arith(float_arith),
                determinate_show(float_show),
                find_shader(lib, path@) == find_shader(lib.subrange(i as int, lib.len() as int), path@),
            decreases self.shaders.len() - i,
        {
            proof {
                assert(lib.subrange(i as int, lib.len() as int).drop_first() =~= lib.subrange(i + 1, lib.len() as int));
                assert(lib.subrange(i as int, lib.len() as int)[0] == lib[i as int]);
            }
            if self.shaders[i].0.eq(&name) {
                let r = self.shaders[i].1.evaluate(&self.state, &self.shaders, self.shaders.len(), float_arith, float_show);
                proof {
                    let ps: Seq<Piece> = seq![Err(crate::segment::Node::Include(path@))];
                    assert(ps.drop_last() =~= Seq::<Piece>::empty());
                    assert(render(Seq::<Piece>::empty(), lib.len() + 1, self.state, lib, arith_of(float_arith), show_of(float_show))
                        == Some(Ok::<Seq<char>, WgslError>(Seq::empty())));
                    let inner = render(self.shaders@[i as int].1.view(), lib.len() as nat, self.state, lib, arith_of(float_arith), show_of(float_show));
                    match inner {
                        Some(Ok(t)) => {
                            assert(Seq::<char>::empty() + (t + seq!['\n']) =~= t + seq!['\n']);
                        },
                        _ => {},
                    }
                }
                return r;
            }
            i = i + 1;
        }
        assert(lib.subrange(i as int, lib.len() as int) =~= Seq::<(Seq<char>, Seq<Piece>)>::empty());
        Some(Err(WgslError::NotFound))
    }

    /// The rendered text of the shader named `path`; faulting inputs (integer
    /// overflow or division by zero in a condition, an include cycle) are excluded.
    pub fn get_shader<F: Fn(WgslOperator, u64, u64) -> u64, D: Fn(u64) -> String>(
        &self,
        path: &str,
        float_arith: &F,
        float_show: &D,
    ) -> (r: Result<String, WgslError>)
        requires
            determinate_arith(float_arith),
            determinate_show(float_show),
            find_shader(self.library(), path@) is Some ==> render(
                seq![Err(crate::segment::Node::Include(path@))],
                self.library().len() + 1,
                self.spec_state(),
                self.library(),
                arith_of(float_arith),
                show_of(float_show),
            ) is Some,
        ensures
            match find_shader(self.library(), path@) {
                None => r == Err::<String, WgslError>(WgslError::NotFound),
                Some(body) => match render(
                    seq![Err(crate::segment::Node::Include(path@))],
                    self.library().len() + 1,
                    self.spec_state(),
                    self.library(),
                    arith_of(float_arith),
                    show_of(float_show),
                ) {
                    Some(Ok(t)) => r matches Ok(s) && s@ + seq!['\n'] == t,
                    Some(Err(e)) => r == Err::<String, WgslError>(e),
                    None => false,
                },
            },
    {
        match self.try_get_shader(path, float_arith, float_show) {
            Some(r) => r,
            None => Err(WgslError::NotFound),
        }
    }
}

} // verus!
