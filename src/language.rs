use vstd::prelude::*;
use crate::ast::{Expr, Operation};
use crate::automaton::Transition;
use crate::graph::{
    alternate_fragment, concat_fragment, epsilon, lemma_thompson_shape, merged_edges, shifted,
    thompson, Fragment,
};

verus! {

/// What an edge label spells: nothing for epsilon, the label otherwise.
pub open spec fn symbol_of(label: Seq<char>) -> Seq<char> {
    if label == epsilon() {
        Seq::empty()
    } else {
        label
    }
}

/// `p`, a sequence of edge indices, is a walk from `s` to `t`.
pub open spec fn is_walk(edges: Seq<Transition>, p: Seq<int>, s: nat, t: nat) -> bool
    decreases p.len(),
{
    if p.len() == 0 {
        s == t
    } else {
        &&& 0 <= p[0] < edges.len()
        &&& edges[p[0]].0 == s
        &&& is_walk(edges, p.drop_first(), edges[p[0]].1, t)
    }
}

/// The word that the walk `p` spells.
pub open spec fn spelled(edges: Seq<Transition>, p: Seq<int>) -> Seq<char>
    decreases p.len(),
{
    if p.len() == 0 {
        Seq::empty()
    } else {
        symbol_of(edges[p[0]].2) + spelled(edges, p.drop_first())
    }
}

/// The fragment accepts `w`: some walk from its entry node to its accepting
/// node spells `w`.
pub open spec fn accepts(f: Fragment, w: Seq<char>) -> bool {
    exists|p: Seq<int>| is_walk(f.edges, p, f.start, f.end) && #[trigger] spelled(f.edges, p) == w
}

proof fn lemma_walk_append(edges: Seq<Transition>, p: Seq<int>, q: Seq<int>, s: nat, x: nat, t: nat)
    requires
        is_walk(edges, p, s, x),
        is_walk(edges, q, x, t),
    ensures
        is_walk(edges, p + q, s, t),
        spelled(edges, p + q) == spelled(edges, p) + spelled(edges, q),
    decreases p.len(),
{
    if p.len() == 0 {
        assert(p + q =~= q);
    } else {
        assert((p + q).drop_first() =~= p.drop_first() + q);
        lemma_walk_append(edges, p.drop_first(), q, edges[p[0]].1, x, t);
        assert((p + q)[0] == p[0]);
        assert(spelled(edges, p + q) =~= spelled(edges, p) + spelled(edges, q));
    }
}

proof fn lemma_walk_single(edges: Seq<Transition>, i: int)
    requires
        0 <= i < edges.len(),
    ensures
        is_walk(edges, seq![i], edges[i].0, edges[i].1),
        spelled(edges, seq![i]) == symbol_of(edges[i].2),
{
    let p = seq![i];
    assert(p.drop_first() =~= Seq::<int>::empty());
    assert(p[0] == i);
    assert(is_walk(edges, p.drop_first(), edges[i].1, edges[i].1));
    assert(spelled(edges, p.drop_first()) == Seq::<char>::empty());
    assert(spelled(edges, p) =~= symbol_of(edges[i].2));
}

/// A walk of `small` carried into `big`, where edge `i` of `small` stands at
/// `off + i` with both endpoints moved by `d`.
proof fn lemma_walk_lift(
    small: Seq<Transition>,
    big: Seq<Transition>,
    off: int,
    d: nat,
    p: Seq<int>,
    s: nat,
    t: nat,
)
    requires
        off >= 0,
        off + small.len() <= big.len(),
        forall|i: int|
            0 <= i < small.len() ==> big[off + i] == (#[trigger] small[i].0 + d, small[i].1 + d, small[i].2),
        is_walk(small, p, s, t),
    ensures
        is_walk(big, p.map_values(|j: int| j + off), s + d, t + d),
        spelled(big, p.map_values(|j: int| j + off)) == spelled(small, p),
    decreases p.len(),
{
    let lifted = p.map_values(|j: int| j + off);
    if p.len() > 0 {
        assert(lifted.drop_first() =~= p.drop_first().map_values(|j: int| j + off));
        let _ = small[p[0]];
        lemma_walk_lift(small, big, off, d, p.drop_first(), small[p[0]].1, t);
        assert(big[lifted[0]] == (small[p[0]].0 + d, small[p[0]].1 + d, small[p[0]].2));
    }
}

/// The alternation accepts every word that its left or its right operand
/// accepts.
proof fn lemma_alternation_accepts_both(l: Expr, r: Expr, w: Seq<char>)
    requires
        accepts(thompson(l), w) || accepts(thompson(r), w),
    ensures
        accepts(thompson(Expr::BinaryOp { left: Box::new(l), op: Operation::Or, right: Box::new(r) }), w),
{
    lemma_thompson_shape(l);
    lemma_thompson_shape(r);
    let fl = thompson(l);
    let fr = thompson(r);
    let g = alternate_fragment(fl, fr);
    let nl = fl.nodes.len();
    let el = fl.edges.len() as int;
    let me = merged_edges(fl.edges, fr.edges, nl);
    let k = me.len() as int;
    assert(thompson(Expr::BinaryOp { left: Box::new(l), op: Operation::Or, right: Box::new(r) }) == g);
    assert(g.edges[k] == (g.start, fl.start, epsilon()));
    assert(g.edges[k + 1] == (g.start, nl + fr.start, epsilon()));
    assert(g.edges[k + 2] == (fl.end, g.end, epsilon()));
    assert(g.edges[k + 3] == (nl + fr.end, g.end, epsilon()));
    let (enter, leave, off, d, f) = if accepts(fl, w) {
        (k, k + 2, 0int, 0nat, fl)
    } else {
        (k + 1, k + 3, el, nl, fr)
    };
    let p = choose|p: Seq<int>| is_walk(f.edges, p, f.start, f.end) && #[trigger] spelled(f.edges, p) == w;
    assert forall|i: int| 0 <= i < f.edges.len() implies g.edges[off + i] == (
        #[trigger] f.edges[i].0 + d,
        f.edges[i].1 + d,
        f.edges[i].2,
    ) by {
        if off == 0 {
            assert(g.edges[i] == me[i]);
        } else {
            assert(g.edges[off + i] == me[off + i]);
            assert(me[off + i] == shifted(fr.edges, nl)[i]);
        }
    }
    lemma_walk_lift(f.edges, g.edges, off, d, p, f.start, f.end);
    let q = p.map_values(|j: int| j + off);
    lemma_walk_single(g.edges, enter);
    lemma_walk_single(g.edges, leave);
    lemma_walk_append(g.edges, q, seq![leave], f.start + d, f.end + d, g.end);
    lemma_walk_append(g.edges, seq![enter], q + seq![leave], g.start, f.start + d, g.end);
    let walk = seq![enter] + (q + seq![leave]);
    assert(spelled(g.edges, walk) =~= w);
}

/// The concatenation accepts every word of its left operand followed by a
/// word of its right operand.
proof fn lemma_concatenation_accepts_joined(l: Expr, r: Expr, u: Seq<char>, v: Seq<char>)
    requires
        accepts(thompson(l), u),
        accepts(thompson(r), v),
    ensures
        accepts(thompson(Expr::BinaryOp { left: Box::new(l), op: Operation::And, right: Box::new(r) }), u + v),
{
    lemma_thompson_shape(l);
    lemma_thompson_shape(r);
    let fl = thompson(l);
    let fr = thompson(r);
    let g = concat_fragment(fl, fr);
    let nl = fl.nodes.len();
    let el = fl.edges.len() as int;
    let me = merged_edges(fl.edges, fr.edges, nl);
    let k = me.len() as int;
    assert(thompson(Expr::BinaryOp { left: Box::new(l), op: Operation::And, right: Box::new(r) }) == g);
    assert(g.edges[k] == (fl.end, nl + fr.start, epsilon()));
    let p = choose|p: Seq<int>| is_walk(fl.edges, p, fl.start, fl.end) && #[trigger] spelled(fl.edges, p) == u;
    let q = choose|q: Seq<int>| is_walk(fr.edges, q, fr.start, fr.end) && #[trigger] spelled(fr.edges, q) == v;
    assert forall|i: int| 0 <= i < fl.edges.len() implies g.edges[0 + i] == (
        #[trigger] fl.edges[i].0 + 0,
        fl.edges[i].1 + 0,
        fl.edges[i].2,
    ) by {
        assert(g.edges[i] == me[i]);
    }
    assert forall|i: int| 0 <= i < fr.edges.len() implies g.edges[el + i] == (
        #[trigger] fr.edges[i].0 + nl,
        fr.edges[i].1 + nl,
        fr.edges[i].2,
    ) by {
        assert(g.edges[el + i] == me[el + i]);
        assert(me[el + i] == shifted(fr.edges, nl)[i]);
    }
    lemma_walk_lift(fl.edges, g.edges, 0, 0, p, fl.start, fl.end);
    lemma_walk_lift(fr.edges, g.edges, el, nl, q, fr.start, fr.end);
    let pl = p.map_values(|j: int| j + 0);
    let ql = q.map_values(|j: int| j + el);
    lemma_walk_single(g.edges, k);
    lemma_walk_append(g.edges, seq![k], ql, fl.end, nl + fr.start, g.end);
    lemma_walk_append(g.edges, pl, seq![k] + ql, g.start, fl.end, g.end);
    let walk = pl + (seq![k] + ql);
    assert(spelled(g.edges, walk) =~= u + v);
}

/// A walk of `big` that starts inside the copy of `small` (the edges of
/// `small` standing at `off` with endpoints moved by `d`) and ends outside it
/// is a walk of `small` to `small_end`, then the epsilon edge `exit`, then a
/// walk of `big` from `target`, when `exit` is the only edge that leaves the
/// copy.
proof fn lemma_walk_split(
    big: Seq<Transition>,
    small: Seq<Transition>,
    off: int,
    d: nat,
    n: nat,
    exit: int,
    small_end: nat,
    target: nat,
    p: Seq<int>,
    x: nat,
    t: nat,
) -> (qr: (Seq<int>, Seq<int>))
    requires
        off >= 0,
        off + small.len() <= big.len(),
        forall|i: int|
            0 <= i < small.len() ==> big[off + i] == (#[trigger] small[i].0 + d, small[i].1 + d, small[i].2),
        forall|i: int| 0 <= i < small.len() ==> #[trigger] small[i].0 < n && small[i].1 < n,
        0 <= exit < big.len(),
        big[exit] == (d + small_end, target, epsilon()),
        small_end < n,
        t < d || t >= d + n,
        forall|j: int|
            0 <= j < big.len() && d <= #[trigger] big[j].0 < d + n ==> (off <= j < off
                + small.len() || j == exit),
        x < n,
        is_walk(big, p, x + d, t),
    ensures
        is_walk(small, qr.0, x, small_end),
        is_walk(big, qr.1, target, t),
        spelled(big, p) == spelled(small, qr.0) + spelled(big, qr.1),
    decreases p.len(),
{
    assert(p.len() > 0);
    let j = p[0];
    let rest = p.drop_first();
    assert(0 <= j < big.len() && big[j].0 == x + d);
    assert(is_walk(big, rest, big[j].1, t));
    assert(spelled(big, p) == symbol_of(big[j].2) + spelled(big, rest));
    if j == exit {
        assert(spelled(big, p) =~= spelled(small, Seq::empty()) + spelled(big, rest));
        (Seq::empty(), rest)
    } else {
        assert(d <= big[j].0 < d + n);
        assert(off <= j < off + small.len());
        let i = j - off;
        let _ = small[i];
        assert(big[off + i] == big[j]);
        assert(small[i].0 < n && small[i].1 < n);
        assert(big[j].1 == small[i].1 + d);
        assert(is_walk(big, rest, small[i].1 + d, t));
        let (q3, r) = lemma_walk_split(big, small, off, d, n, exit, small_end, target, rest, small[i].1, t);
        let q = seq![i] + q3;
        assert(q.drop_first() =~= q3);
        assert(q[0] == i);
        assert(spelled(big, p) =~= spelled(small, q) + spelled(big, r));
        (q, r)
    }
}

/// A walk of `big` between two nodes of the copy of `small` is a walk of
/// `small` spelling the same word, when no edge leaves the copy.
proof fn lemma_walk_within(
    big: Seq<Transition>,
    small: Seq<Transition>,
    off: int,
    d: nat,
    n: nat,
    p: Seq<int>,
    x: nat,
    t: nat,
) -> (q: Seq<int>)
    requires
        off >= 0,
        off + small.len() <= big.len(),
        forall|i: int|
            0 <= i < small.len() ==> big[off + i] == (#[trigger] small[i].0 + d, small[i].1 + d, small[i].2),
        forall|i: int| 0 <= i < small.len() ==> #[trigger] small[i].0 < n && small[i].1 < n,
        forall|j: int|
            0 <= j < big.len() && d <= #[trigger] big[j].0 < d + n ==> off <= j < off
                + small.len(),
        x < n,
        t < n,
        is_walk(big, p, x + d, t + d),
    ensures
        is_walk(small, q, x, t),
        spelled(small, q) == spelled(big, p),
    decreases p.len(),
{
    if p.len() == 0 {
        Seq::empty()
    } else {
        let j = p[0];
        let rest = p.drop_first();
        assert(0 <= j < big.len() && big[j].0 == x + d);
        assert(is_walk(big, rest, big[j].1, t + d));
        assert(d <= big[j].0 < d + n);
        let i = j - off;
        let _ = small[i];
        assert(big[off + i] == big[j]);
        assert(small[i].0 < n && small[i].1 < n);
        assert(big[j].1 == small[i].1 + d);
        let q3 = lemma_walk_within(big, small, off, d, n, rest, small[i].1, t);
        let q = seq![i] + q3;
        assert(q.drop_first() =~= q3);
        assert(q[0] == i);
        q
    }
}

/// The alternation accepts exactly the words that its left or its right
/// operand accepts.
pub proof fn lemma_alternation_language(l: Expr, r: Expr, w: Seq<char>)
    ensures
        accepts(thompson(Expr::BinaryOp { left: Box::new(l), op: Operation::Or, right: Box::new(r) }), w)
            <==> (accepts(thompson(l), w) || accepts(thompson(r), w)),
{
    let g = thompson(Expr::BinaryOp { left: Box::new(l), op: Operation::Or, right: Box::new(r) });
    if accepts(thompson(l), w) || accepts(thompson(r), w) {
        lemma_alternation_accepts_both(l, r, w);
    }
    if accepts(g, w) {
        lemma_thompson_shape(l);
        lemma_thompson_shape(r);
        let fl = thompson(l);
        let fr = thompson(r);
        assert(g == alternate_fragment(fl, fr));
        let nl = fl.nodes.len();
        let nr = fr.nodes.len();
        let el = fl.edges.len() as int;
        let me = merged_edges(fl.edges, fr.edges, nl);
        let k = me.len() as int;
        let m = nl + nr;
        assert(g.edges.len() == k + 4);
        assert forall|j: int| 0 <= j < k implies #[trigger] g.edges[j] == me[j] && me[j].0 < m
            && me[j].1 < m && (j < el ==> me[j].0 < nl) && (j >= el ==> me[j].0 >= nl) by {
            if j < el {
                assert(me[j] == fl.edges[j]);
            } else {
                assert(me[j] == shifted(fr.edges, nl)[j - el]);
                let _ = fr.edges[j - el];
            }
        }
        assert(g.edges[k] == (m, fl.start, epsilon()));
        assert(g.edges[k + 1] == (m, nl + fr.start, epsilon()));
        assert(g.edges[k + 2] == (fl.end, m + 1, epsilon()));
        assert(g.edges[k + 3] == (nl + fr.end, m + 1, epsilon()));
        let p = choose|p: Seq<int>| is_walk(g.edges, p, g.start, g.end) && #[trigger] spelled(g.edges, p) == w;
        assert(is_walk(g.edges, p, g.start, g.end));
        assert(p.len() > 0);
        let j = p[0];
        let rest = p.drop_first();
        assert(0 <= j < g.edges.len() && g.edges[j].0 == m);
        assert(is_walk(g.edges, rest, g.edges[j].1, m + 1));
        assert(spelled(g.edges, p) == symbol_of(g.edges[j].2) + spelled(g.edges, rest));
        if j < k {
            assert(me[j].0 < m);
        }
        assert(forall|i: int| 0 <= i < fl.edges.len() ==> g.edges[0 + i] == (
            #[trigger] fl.edges[i].0 + 0,
            fl.edges[i].1 + 0,
            fl.edges[i].2,
        ));
        assert forall|i: int| 0 <= i < fr.edges.len() implies g.edges[el + i] == (
            #[trigger] fr.edges[i].0 + nl,
            fr.edges[i].1 + nl,
            fr.edges[i].2,
        ) by {
            assert(g.edges[el + i] == me[el + i]);
            assert(me[el + i] == shifted(fr.edges, nl)[i]);
        }
        if j == k {
            let (q, r2) = lemma_walk_split(g.edges, fl.edges, 0, 0, nl, k + 2, fl.end, m + 1, rest, fl.start, m + 1);
            if r2.len() > 0 {
                let _ = g.edges[r2[0]];
            }
            assert(r2 =~= Seq::<int>::empty());
            assert(spelled(fl.edges, q) =~= w);
        } else {
            assert(j == k + 1);
            let (q, r2) = lemma_walk_split(g.edges, fr.edges, el, nl, nr, k + 3, fr.end, m + 1, rest, fr.start, m + 1);
            if r2.len() > 0 {
                let _ = g.edges[r2[0]];
            }
            assert(r2 =~= Seq::<int>::empty());
            assert(spelled(fr.edges, q) =~= w);
        }
    }
}

/// The concatenation accepts exactly the words made of a word that its left
/// operand accepts followed by one that its right operand accepts.
pub proof fn lemma_concatenation_language(l: Expr, r: Expr, w: Seq<char>)
    ensures
        accepts(thompson(Expr::BinaryOp { left: Box::new(l), op: Operation::And, right: Box::new(r) }), w)
            <==> exists|u: Seq<char>, v: Seq<char>|
            w == u + v && #[trigger] accepts(thompson(l), u) && #[trigger] accepts(thompson(r), v),
{
    let g = thompson(Expr::BinaryOp { left: Box::new(l), op: Operation::And, right: Box::new(r) });
    if exists|u: Seq<char>, v: Seq<char>|
        w == u + v && #[trigger] accepts(thompson(l), u) && #[trigger] accepts(thompson(r), v) {
        let (u, v) = choose|u: Seq<char>, v: Seq<char>|
            w == u + v && #[trigger] accepts(thompson(l), u) && #[trigger] accepts(thompson(r), v);
        lemma_concatenation_accepts_joined(l, r, u, v);
    }
    if accepts(g, w) {
        lemma_thompson_shape(l);
        lemma_thompson_shape(r);
        let fl = thompson(l);
        let fr = thompson(r);
        assert(g == concat_fragment(fl, fr));
        let nl = fl.nodes.len();
        let nr = fr.nodes.len();
        let el = fl.edges.len() as int;
        let me = merged_edges(fl.edges, fr.edges, nl);
        let k = me.len() as int;
        assert(g.edges.len() == k + 1);
        assert forall|j: int| 0 <= j < k implies #[trigger] g.edges[j] == me[j] && (j < el
            ==> me[j].0 < nl) && (j >= el ==> me[j].0 >= nl) by {
            if j < el {
                assert(me[j] == fl.edges[j]);
            } else {
                assert(me[j] == shifted(fr.edges, nl)[j - el]);
                let _ = fr.edges[j - el];
            }
        }
        assert(g.edges[k] == (fl.end, nl + fr.start, epsilon()));
        assert(forall|i: int| 0 <= i < fl.edges.len() ==> g.edges[0 + i] == (
            #[trigger] fl.edges[i].0 + 0,
            fl.edges[i].1 + 0,
            fl.edges[i].2,
        ));
        assert forall|i: int| 0 <= i < fr.edges.len() implies g.edges[el + i] == (
            #[trigger] fr.edges[i].0 + nl,
            fr.edges[i].1 + nl,
            fr.edges[i].2,
        ) by {
            assert(g.edges[el + i] == me[el + i]);
            assert(me[el + i] == shifted(fr.edges, nl)[i]);
        }
        let p = choose|p: Seq<int>| is_walk(g.edges, p, g.start, g.end) && #[trigger] spelled(g.edges, p) == w;
        let (q, r2) = lemma_walk_split(g.edges, fl.edges, 0, 0, nl, k, fl.end, nl + fr.start, p, fl.start, nl + fr.end);
        let q2 = lemma_walk_within(g.edges, fr.edges, el, nl, nr, r2, fr.start, fr.end);
        let u = spelled(fl.edges, q);
        let v = spelled(fr.edges, q2);
        assert(accepts(fl, u));
        assert(accepts(fr, v));
        assert(w == u + v);
    }
}

} // verus!
