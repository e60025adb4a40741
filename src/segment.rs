//! The segment tree of a shader body and its flattening concatenation.
use vstd::prelude::*;

use crate::expression::{ExprView, WgslExpression};
use crate::text::push_str;

verus! {

broadcast use vstd::std_specs::vec::axiom_vec_decreases_to_view, vstd::seq::axiom_seq_index_decreases;

/// Why a run of lines ended.
#[derive(Debug, Clone, Copy, PartialEq, Eq, Structural)]
pub enum WgslSegmentEndReason {
    NotEnded,
    EndOfFile,
    ElseOp,
    EndOp,
}

/// One piece of a shader body.
#[derive(Debug)]
pub enum WgslSegment {
    Include(String),
    Conditional {
        condition: WgslExpression,
        if_true: Box<WgslSegment>,
        if_false: Option<Box<WgslSegment>>,
    },
    Sequence(Vec<WgslSegment>),
    Constant(String),
    Text(String),
}

/// A unit of a segment's output that is not plain text.
pub ghost enum Node {
    Include(Seq<char>),
    Constant(Seq<char>),
    Conditional(ExprView, Seq<Piece>, Option<Seq<Piece>>),
}

/// A unit of a segment's output: `Ok(c)` for one character of text, `Err(n)`
/// for an include, a constant or a conditional.
pub type Piece = Result<char, Node>;

pub open spec fn text_pieces(t: Seq<char>) -> Seq<Piece>
    decreases t.len(),
{
    if t.len() == 0 {
        Seq::empty()
    } else {
        text_pieces(t.drop_last()).push(Ok::<char, Node>(t.last()))
    }
}

pub proof fn lemma_text_pieces_append(a: Seq<char>, b: Seq<char>)
    ensures
        text_pieces(a + b) == text_pieces(a) + text_pieces(b),
    decreases b.len(),
{
    if b.len() == 0 {
        assert(a + b =~= a);
        assert(text_pieces(a) + text_pieces(b) =~= text_pieces(a));
    } else {
        assert((a + b).drop_last() =~= a + b.drop_last());
        lemma_text_pieces_append(a, b.drop_last());
        assert((a + b).len() > 0);
        assert(b.len() > 0);
        assert((a + b).last() == b.last());
        assert(text_pieces(a + b) == text_pieces(a + b.drop_last()).push(Ok::<char, Node>(b.last())));
        assert(text_pieces(b) == text_pieces(b.drop_last()).push(Ok::<char, Node>(b.last())));
        assert(text_pieces(a + b) =~= text_pieces(a) + text_pieces(b));
    }
}

/// The units of a segment in output order: text split into characters,
/// sequences flattened, conditionals described by their branches' units.
pub open spec fn pieces(s: WgslSegment) -> Seq<Piece>
    decreases s,
{
    match s {
        WgslSegment::Text(t) => text_pieces(t@),
        WgslSegment::Sequence(v) => pieces_of(v@),
        WgslSegment::Include(p) => seq![Err(Node::Include(p@))],
        WgslSegment::Constant(n) => seq![Err(Node::Constant(n@))],
        WgslSegment::Conditional { condition, if_true, if_false } => seq![
            Err(
                Node::Conditional(
                    condition.view(),
                    pieces(*if_true),
                    match if_false {
                        Some(f) => Some(pieces(*f)),
                        None => None,
                    },
                ),
            ),
        ],
    }
}

pub open spec fn pieces_of(v: Seq<WgslSegment>) -> Seq<Piece>
    decreases v,
{
    if v.len() == 0 {
        Seq::empty()
    } else {
        pieces_of(v.drop_last()) + pieces(v.last())
    }
}

/// The number of sequence nodes reachable through sequences.
pub open spec fn sequence_count(s: WgslSegment) -> nat
    decreases s,
{
    match s {
        WgslSegment::Sequence(v) => 1 + sequence_count_of(v@),
        _ => 0,
    }
}

pub open spec fn sequence_count_of(v: Seq<WgslSegment>) -> nat
    decreases v,
{
    if v.len() == 0 {
        0
    } else {
        sequence_count_of(v.drop_last()) + sequence_count(v.last())
    }
}

pub open spec fn fast_mergeable(a: WgslSegment, b: WgslSegment) -> bool {
    b is Sequence || a is Sequence || (a is Text && b is Text)
}

/// No sequence directly inside a sequence and no two adjacent texts in one,
/// at every level of the tree.
pub open spec fn well_formed(s: WgslSegment) -> bool
    decreases s,
{
    match s {
        WgslSegment::Sequence(v) => {
            &&& forall|i: int| 0 <= i < v@.len() ==> !(#[trigger] v@[i] is Sequence)
            &&& forall|i: int| 0 < i < v@.len() ==> !(v@[i - 1] is Text && #[trigger] v@[i] is Text)
            &&& forall|i: int| 0 <= i < v@.len() ==> well_formed(#[trigger] v@[i])
        },
        WgslSegment::Conditional { condition, if_true, if_false } => {
            &&& well_formed(*if_true)
            &&& match if_false {
                Some(f) => well_formed(*f),
                None => true,
            }
        },
        _ => true,
    }
}

pub proof fn lemma_pieces_of_append(a: Seq<WgslSegment>, b: Seq<WgslSegment>)
    ensures
        pieces_of(a + b) == pieces_of(a) + pieces_of(b),
        sequence_count_of(a + b) == sequence_count_of(a) + sequence_count_of(b),
    decreases b.len(),
{
    if b.len() == 0 {
        assert(a + b =~= a);
    } else {
        assert((a + b).drop_last() =~= a + b.drop_last());
        lemma_pieces_of_append(a, b.drop_last());
    }
}

proof fn lemma_pieces_of_one(x: WgslSegment)
    ensures
        pieces_of(seq![x]) == pieces(x),
        sequence_count_of(seq![x]) == sequence_count(x),
{
    assert(seq![x].drop_last() =~= Seq::<WgslSegment>::empty());
    assert(seq![x].last() == x);
    assert(pieces_of(Seq::<WgslSegment>::empty()) + pieces(x) =~= pieces(x));
    assert(sequence_count_of(Seq::<WgslSegment>::empty()) == 0);
}

proof fn lemma_push_child(v: Seq<WgslSegment>, x: WgslSegment)
    requires
        well_formed_children(v),
        well_formed(x),
        !(x is Sequence),
        !(v.len() > 0 && v.last() is Text && x is Text),
    ensures
        well_formed_children(v.push(x)),
{
    let w = v.push(x);
    assert forall|i: int| 0 <= i < w.len() implies well_formed(#[trigger] w[i]) && !(w[i] is Sequence) by {
        if i < v.len() {
            assert(w[i] == v[i]);
        }
    }
    assert forall|i: int| 0 < i < w.len() implies !(w[i - 1] is Text && #[trigger] w[i] is Text) by {
        assert(w[i - 1] == v[i - 1]);
        if i < v.len() {
            assert(w[i] == v[i]);
        }
    }
}

proof fn lemma_replace_last_child(v: Seq<WgslSegment>, x: WgslSegment)
    requires
        well_formed_children(v),
        v.len() > 0,
        well_formed(x),
        !(x is Sequence),
        x is Text ==> v.last() is Text,
    ensures
        well_formed_children(v.drop_last().push(x)),
{
    let w = v.drop_last().push(x);
    assert forall|i: int| 0 <= i < w.len() implies well_formed(#[trigger] w[i]) && !(w[i] is Sequence) by {
        if i < v.len() - 1 {
            assert(w[i] == v[i]);
        }
    }
    assert forall|i: int| 0 < i < w.len() implies !(w[i - 1] is Text && #[trigger] w[i] is Text) by {
        assert(w[i - 1] == v[i - 1]);
        if i < v.len() - 1 {
            assert(w[i] == v[i]);
        } else {
            assert(!(v[i - 1] is Text && v[i] is Text));
        }
    }
}

/// Children that may stand in a well-formed sequence.
pub open spec fn well_formed_children(v: Seq<WgslSegment>) -> bool {
    &&& forall|i: int| 0 <= i < v.len() ==> !(#[trigger] v[i] is Sequence)
    &&& forall|i: int| 0 < i < v.len() ==> !(v[i - 1] is Text && #[trigger] v[i] is Text)
    &&& forall|i: int| 0 <= i < v.len() ==> well_formed(#[trigger] v[i])
}

/// `r` is the children `v` followed by the children `w`, where a text that
/// ends `v` and a text that starts `w` become one text.
pub open spec fn joins(v: Seq<WgslSegment>, w: Seq<WgslSegment>, r: Seq<WgslSegment>) -> bool {
    if v.len() > 0 && w.len() > 0 && v.last() is Text && w[0] is Text {
        &&& r.len() == v.len() + w.len() - 1
        &&& r.subrange(0, v.len() - 1) == v.drop_last()
        &&& r[v.len() - 1] is Text
        &&& r[v.len() - 1]->Text_0@ == v.last()->Text_0@ + w[0]->Text_0@
        &&& r.subrange(v.len() as int, r.len() as int) == w.drop_first()
    } else {
        r == v + w
    }
}

proof fn lemma_joins_last(v: Seq<WgslSegment>, w: Seq<WgslSegment>, k: int, l: Seq<WgslSegment>)
    requires
        well_formed_children(v),
        well_formed_children(w),
        0 <= k <= w.len(),
        joins(v, w.subrange(0, k), l),
    ensures
        l.len() > 0 ==> !(l.last() is Sequence),
{
    let wk = w.subrange(0, k);
    if l.len() > 0 {
        if v.len() > 0 && wk.len() > 0 && v.last() is Text && wk[0] is Text {
            if k > 1 {
                assert(l.subrange(v.len() as int, l.len() as int) == wk.drop_first());
                assert(l.last() == l.subrange(v.len() as int, l.len() as int)[l.len() - v.len() - 1]);
                assert(l.last() == w[k - 1]);
            } else {
                assert(l.last() == l[v.len() - 1]);
            }
        } else {
            assert(l == v + wk);
            if k > 0 {
                assert(l.last() == w[k - 1]);
            } else {
                assert(l.last() == v[v.len() - 1]);
            }
        }
    }
}

proof fn lemma_joins_extend(v: Seq<WgslSegment>, w: Seq<WgslSegment>, k: int, l: Seq<WgslSegment>, l2: Seq<WgslSegment>)
    requires
        well_formed_children(v),
        well_formed_children(w),
        0 <= k < w.len(),
        joins(v, w.subrange(0, k), l),
        joins(l, seq![w[k]], l2),
    ensures
        joins(v, w.subrange(0, k + 1), l2),
{
    let wk = w.subrange(0, k);
    let wk1 = w.subrange(0, k + 1);
    let y = w[k];
    let n = v.len() as int;
    if k == 0 {
        assert(wk =~= Seq::<WgslSegment>::empty());
        assert(v + wk =~= v);
        assert(wk1 =~= seq![y]);
    } else {
        assert(wk1[0] == w[0] && wk[0] == w[0]);
        assert(!(w[k - 1] is Text && w[k] is Text));
        if n > 0 && v.last() is Text && w[0] is Text {
            assert(l.len() > 0);
            if k > 1 {
                assert(l.subrange(n, l.len() as int) == wk.drop_first());
                assert(l.last() == l.subrange(n, l.len() as int)[l.len() - n - 1]);
                assert(l.last() == w[k - 1]);
            } else {
                assert(l.last() == l[n - 1]);
                assert(!(w[0] is Text && w[1] is Text));
            }
            assert(!(l.last() is Text && y is Text));
            assert(l2 == l + seq![y]);
            assert(l2.subrange(0, n - 1) =~= l.subrange(0, n - 1));
            assert(l2[n - 1] == l[n - 1]);
            assert(l2.subrange(n, l2.len() as int) =~= l.subrange(n, l.len() as int).push(y));
            assert(wk1.drop_first() =~= wk.drop_first().push(y));
        } else {
            assert(l == v + wk);
            assert(l.last() == w[k - 1]);
            assert(!(l.last() is Text && y is Text));
            assert(l2 == l + seq![y]);
            assert(l2 =~= v + wk1);
        }
    }
}

impl WgslSegment {
    /// Whether `other` can be merged into `self` without a new sequence node.
    pub fn can_concat_fast(&self, other: &WgslSegment) -> (r: bool)
        ensures
            r == fast_mergeable(*self, *other),
    {
        match (self, other) {
            (_, WgslSegment::Sequence(_)) => true,
            (WgslSegment::Sequence(_), _) => true,
            (WgslSegment::Text(_), WgslSegment::Text(_)) => true,
            _ => false,
        }
    }

    /// Makes `self` stand for `self` followed by `other`, merging adjacent
    /// texts and flattening sequences.
    pub fn concat(&mut self, other: WgslSegment)
        ensures
            pieces(*final(self)) == pieces(*old(self)) + pieces(other),
            well_formed(*old(self)) && well_formed(other) && !(other is Sequence) ==> well_formed(*final(self)),
            shape_of_concat(*old(self), other, *final(self)),
    {
        let mut this = WgslSegment::Text(String::new());
        std::mem::swap(self, &mut this);
        *self = concat_owned(this, other);
    }
}

/// The tree that concatenation builds: two texts become one text; two other
/// nodes that are not sequences become a sequence of the two; a node before a
/// sequence becomes its first child; a node after a sequence whose last child
/// is no sequence joins its children; two sequences of well-formed children
/// join their children.
pub open spec fn shape_of_concat(a: WgslSegment, b: WgslSegment, r: WgslSegment) -> bool {
    &&& a is Text && b is Text ==> r is Text && r->Text_0@ == a->Text_0@ + b->Text_0@
    &&& !(a is Sequence) && !(b is Sequence) && !(a is Text && b is Text) ==> r is Sequence && r->Sequence_0@ == seq![a, b]
    &&& !(a is Sequence) && b is Sequence ==> r is Sequence && r->Sequence_0@ == seq![a] + b->Sequence_0@
    &&& a is Sequence && !(b is Sequence) && (a->Sequence_0@.len() > 0 ==> !(a->Sequence_0@.last() is Sequence))
        ==> r is Sequence && joins(a->Sequence_0@, seq![b], r->Sequence_0@)
    &&& a is Sequence && b is Sequence && well_formed_children(a->Sequence_0@) && well_formed_children(b->Sequence_0@)
        ==> r is Sequence && joins(a->Sequence_0@, b->Sequence_0@, r->Sequence_0@)
}

/// Appends the children `right` one by one to the children `left`.
#[verifier::loop_isolation(false)]
fn concat_sequences(left: Vec<WgslSegment>, right: Vec<WgslSegment>) -> (r: Vec<WgslSegment>)
    ensures
        pieces_of(r@) == pieces_of(left@) + pieces_of(right@),
        sequence_count_of(r@) <= sequence_count_of(left@) + sequence_count_of(right@),
        well_formed_children(left@) && well_formed_children(right@) ==> joins(left@, right@, r@),
    decreases sequence_count_of(left@) + sequence_count_of(right@) + 2, 1nat,
{
    let ghost l0 = left@;
    let ghost r0 = right@;
    let mut left = left;
    let mut right = right;
    let mut rev: Vec<WgslSegment> = Vec::new();
    while right.len() > 0
        invariant
            right@ == r0.subrange(0, right@.len() as int),
            rev@.len() == r0.len() - right@.len(),
            forall|i: int| 0 <= i < rev@.len() ==> #[trigger] rev@[i] == r0[r0.len() - 1 - i],
        decreases right.len(),
    {
        let x = right.pop().unwrap();
        rev.push(x);
    }
    assert(r0.subrange(0, 0) =~= Seq::<WgslSegment>::empty());
    assert(r0.subrange(0, r0.len() as int) =~= r0);
    assert(l0 + Seq::<WgslSegment>::empty() =~= l0);
    assert(l0 + r0.subrange(0, 0) =~= l0);
    while rev.len() > 0
        invariant
            rev@.len() <= r0.len(),
            forall|i: int| 0 <= i < rev@.len() ==> #[trigger] rev@[i] == r0[r0.len() - 1 - i],
            pieces_of(left@) == pieces_of(l0) + pieces_of(r0.subrange(0, r0.len() - rev@.len())),
            sequence_count_of(left@) + sequence_count_of(r0.subrange(r0.len() - rev@.len(), r0.len() as int))
                <= sequence_count_of(l0) + sequence_count_of(r0),
            well_formed_children(l0) && well_formed_children(r0) ==> joins(l0, r0.subrange(0, r0.len() - rev@.len()), left@),
        decreases rev.len(),
    {
        let ghost k = r0.len() - rev@.len();
        let y = rev.pop().unwrap();
        proof {
            assert(y == r0[k]);
            assert(r0.subrange(k, r0.len() as int) =~= seq![y] + r0.subrange(k + 1, r0.len() as int));
            lemma_pieces_of_append(seq![y], r0.subrange(k + 1, r0.len() as int));
            lemma_pieces_of_one(y);
            assert(r0.subrange(0, k + 1).drop_last() =~= r0.subrange(0, k));
            assert(r0.subrange(0, k + 1).last() == y);
            if well_formed_children(l0) && well_formed_children(r0) {
                lemma_joins_last(l0, r0, k, left@);
                assert(!(y is Sequence));
            }
        }
        let ghost before = left@;
        append_child(&mut left, y);
        proof {
            if well_formed_children(l0) && well_formed_children(r0) {
                lemma_joins_extend(l0, r0, k, before, left@);
            }
        }
    }
    left
}

/// Appends `seg` to the children `v`, merging it into the last child where
/// the two are fast-mergeable.
fn append_child(v: &mut Vec<WgslSegment>, seg: WgslSegment)
    ensures
        pieces_of(final(v)@) == pieces_of(old(v)@) + pieces(seg),
        sequence_count_of(final(v)@) <= sequence_count_of(old(v)@) + sequence_count(seg),
        well_formed_children(old(v)@) && well_formed(seg) && !(seg is Sequence)
            ==> well_formed_children(final(v)@),
        !(seg is Sequence) && (old(v)@.len() > 0 ==> !(old(v)@.last() is Sequence)) ==> joins(old(v)@, seq![seg], final(v)@),
    decreases sequence_count_of(old(v)@) + sequence_count(seg) + 1, 1nat,
{
    let ghost v0 = v@;
    let ghost s0 = seg;
    match v.pop() {
        Some(last) => {
            proof {
                assert(v0 =~= v@.push(last));
                assert(v0.drop_last() =~= v@);
                assert(v0.last() == last);
            }
            if last.can_concat_fast(&seg) {
                let merged = concat_owned(last, seg);
                proof {
                    if well_formed_children(v0) && well_formed(s0) && !(s0 is Sequence) {
                        assert(v0[v0.len() - 1] == v0.last());
                        lemma_replace_last_child(v0, merged);
                    }
                }
                v.push(merged);
                proof {
                    assert(v@.drop_last() =~= v0.drop_last());
                    if !(s0 is Sequence) && !(v0.last() is Sequence) {
                        assert(seq![s0][0] == s0);
                        assert(v@.subrange(0, v0.len() - 1) =~= v0.drop_last());
                        assert(v@.subrange(v0.len() as int, v@.len() as int) =~= seq![s0].drop_first());
                    }
                }
            } else {
                let ghost l = last;
                v.push(last);
                v.push(seg);
                proof {
                    assert(v@.drop_last() =~= v0);
                    assert(v@ =~= v0.push(s0));
                    assert(v@ =~= v0 + seq![s0]);
                    assert(seq![s0][0] == s0);
                    if well_formed_children(v0) && well_formed(s0) && !(s0 is Sequence) {
                        lemma_push_child(v0, s0);
                    }
                }
            }
        },
        None => {
            v.push(seg);
            proof {
                assert(v@.drop_last() =~= v0);
                assert(v@ =~= v0.push(s0));
                assert(v@ =~= v0 + seq![s0]);
                if well_formed_children(v0) && well_formed(s0) && !(s0 is Sequence) {
                    lemma_push_child(v0, s0);
                }
            }
        },
    }
}

fn concat_owned(a: WgslSegment, b: WgslSegment) -> (r: WgslSegment)
    ensures
        pieces(r) == pieces(a) + pieces(b),
        fast_mergeable(a, b) ==> sequence_count(r) <= sequence_count(a) + sequence_count(b),
        well_formed(a) && well_formed(b) && !(b is Sequence) ==> well_formed(r),
        a is Text && b is Text ==> r is Text,
        !(a is Text && b is Text) ==> !(r is Text),
        shape_of_concat(a, b, r),
    decreases sequence_count(a) + sequence_count(b), 2nat,
{
    let ghost (ga, gb) = (a, b);
    match (a, b) {
        (WgslSegment::Sequence(left), WgslSegment::Sequence(right)) => {
            WgslSegment::Sequence(concat_sequences(left, right))
        },
        (WgslSegment::Text(left), WgslSegment::Text(right)) => {
            let ghost (ta, tb) = (left@, right@);
            let mut left = left;
            push_str(&mut left, right.as_str());
            proof {
                assert(left@ == ta + tb);
                lemma_text_pieces_append(ta, tb);
            }
            WgslSegment::Text(left)
        },
        (left, WgslSegment::Sequence(right)) => {
            let mut right = right;
            let ghost r0 = right@;
            let ghost l = left;
            right.insert(0, left);
            proof {
                assert(right@ =~= seq![l] + r0);
                lemma_pieces_of_append(seq![l], r0);
                lemma_pieces_of_one(l);
            }
            WgslSegment::Sequence(right)
        },
        (WgslSegment::Sequence(left), right) => {
            let mut left = left;
            let ghost l0 = left@;
            append_child(&mut left, right);
            WgslSegment::Sequence(left)
        },
        (left, right) => {
            let ghost (l, r) = (left, right);
            let v = vec![left, right];
            proof {
                assert(v@.drop_last() =~= seq![l]);
                lemma_pieces_of_one(l);
                assert(v@[0] == l && v@[1] == r);
                assert(v@.last() == r);
                assert(pieces(WgslSegment::Sequence(v)) == pieces_of(v@));
                assert(pieces_of(v@) == pieces_of(v@.drop_last()) + pieces(v@.last()));
            }
            WgslSegment::Sequence(v)
        },
    }
}

} // verus!
