use vstd::prelude::*;
use vstd::multiset::Multiset;
use crate::ast::{push_char, Expr, Operation, UnaryOp};
use crate::automaton::{
    add_edge, add_node, edge_count, edge_endpoints, edge_weight, graph_edges, graph_nodes,
    new_graph, node_count, node_weight, set_node_weight, Automaton, Transition,
};

verus! {

/// The symbol of an epsilon transition.
pub const EPSILON: char = '\u{3b5}';

/// An automaton fragment as plain values: node labels, edges, the entry
/// node, the accepting node and the nesting depth used for labels.
pub struct Fragment {
    pub nodes: Seq<Seq<char>>,
    pub edges: Seq<Transition>,
    pub start: nat,
    pub end: nat,
    pub level: nat,
}

/// The label of an epsilon edge.
pub open spec fn epsilon() -> Seq<char> {
    seq![EPSILON]
}

/// The label prefix for nesting depth `d`: `a` for depth 0, `b` for 1, and
/// so on (the byte `b'a' + d`, wrapping at 256).
pub open spec fn letter(d: nat) -> char {
    ((97 + d) % 256) as u8 as char
}

/// A state label made of a prefix and a digit.
pub open spec fn state_label(prefix: char, digit: char) -> Seq<char> {
    seq![prefix, digit]
}

/// A fragment is well formed when its entry and accepting nodes are two
/// distinct nodes, every edge joins two of its nodes, and its depth is below
/// its node count.
pub open spec fn wf_fragment(f: Fragment) -> bool {
    &&& f.start < f.nodes.len()
    &&& f.end < f.nodes.len()
    &&& f.start != f.end
    &&& f.level < f.nodes.len()
    &&& forall|i: int|
        0 <= i < f.edges.len() ==> #[trigger] f.edges[i].0 < f.nodes.len() && f.edges[i].1
            < f.nodes.len()
}

/// The fragment of a single symbol: `q0 --a--> q1`.
pub open spec fn literal_fragment(a: Seq<char>) -> Fragment {
    Fragment {
        nodes: seq![state_label('q', '0'), state_label('q', '1')],
        edges: seq![(0nat, 1nat, a)],
        start: 0,
        end: 1,
        level: 0,
    }
}

/// Kleene star or one-or-more around `f`: two new nodes `x0` (entry) and
/// `x3` (accepting), with `x` the letter of `f`'s depth; `f`'s entry and
/// accepting nodes are relabelled `x1` and `x2`. Epsilon edges: back from
/// `f`'s end to its start, from `x0` to `f`'s start, from `f`'s end to `x3`,
/// and, for the star only, the bypass from `x0` to `x3`.
pub open spec fn repeat_fragment(f: Fragment, bypass: bool) -> Fragment {
    let p = letter(f.level);
    let n = f.nodes.len();
    let nodes = f.nodes.push(state_label(p, '0')).push(state_label(p, '3')).update(
        f.start as int,
        state_label(p, '1'),
    ).update(f.end as int, state_label(p, '2'));
    let edges = if bypass {
        f.edges + seq![
            (f.end, f.start, epsilon()),
            (n, n + 1, epsilon()),
            (n, f.start, epsilon()),
            (f.end, n + 1, epsilon()),
        ]
    } else {
        f.edges + seq![(f.end, f.start, epsilon()), (n, f.start, epsilon()), (f.end, n + 1, epsilon())]
    };
    Fragment { nodes, edges, start: n, end: n + 1, level: f.level + 1 }
}

/// The edges of a graph whose nodes were placed after `k` others.
pub open spec fn shifted(edges: Seq<Transition>, k: nat) -> Seq<Transition> {
    edges.map_values(|t: Transition| (t.0 + k, t.1 + k, t.2))
}

/// The nodes of `b` placed after those of `a`.
pub open spec fn merged_nodes(a: Seq<Seq<char>>, b: Seq<Seq<char>>) -> Seq<Seq<char>> {
    a + b
}

/// The edges of `b` placed after those of `a`, their endpoints moved past the
/// `na` nodes of `a`.
pub open spec fn merged_edges(a: Seq<Transition>, b: Seq<Transition>, na: nat) -> Seq<Transition> {
    a + shifted(b, na)
}

/// Alternation of `l` and `r`: both graphs side by side, a new entry node
/// with epsilon edges to both entries, a new accepting node with epsilon
/// edges from both accepting nodes.
pub open spec fn alternate_fragment(l: Fragment, r: Fragment) -> Fragment {
    let nl = l.nodes.len();
    let level = if l.level >= r.level { l.level } else { r.level };
    let p = letter(level);
    let m = nl + r.nodes.len();
    let nodes = merged_nodes(l.nodes, r.nodes).push(state_label(p, '0')).push(state_label(p, '3'));
    let edges = merged_edges(l.edges, r.edges, nl) + seq![
        (m, l.start, epsilon()),
        (m, nl + r.start, epsilon()),
        (l.end, m + 1, epsilon()),
        (nl + r.end, m + 1, epsilon()),
    ];
    Fragment { nodes, edges, start: m, end: m + 1, level: level + 1 }
}

/// Concatenation of `l` and `r`: both graphs side by side, an epsilon edge
/// from `l`'s accepting node to `r`'s entry.
pub open spec fn concat_fragment(l: Fragment, r: Fragment) -> Fragment {
    let nl = l.nodes.len();
    let level = if l.level >= r.level { l.level } else { r.level };
    let nodes = merged_nodes(l.nodes, r.nodes);
    let edges = merged_edges(l.edges, r.edges, nl).push((l.end, nl + r.start, epsilon()));
    Fragment { nodes, edges, start: l.start, end: nl + r.end, level }
}

/// Thompson's construction of `e`, built bottom-up.
pub open spec fn thompson(e: Expr) -> Fragment
    decreases e,
{
    match e {
        Expr::Char(c) => literal_fragment(seq![c]),
        Expr::UnaryOp { operand, op } => repeat_fragment(thompson(*operand), op == UnaryOp::Kleene),
        Expr::BinaryOp { left, op, right } => match op {
            Operation::Or => alternate_fragment(thompson(*left), thompson(*right)),
            Operation::And => concat_fragment(thompson(*left), thompson(*right)),
        },
    }
}

/// The number of states of the automaton of `e`.
pub open spec fn state_count(e: Expr) -> nat
    decreases e,
{
    match e {
        Expr::Char(_) => 2,
        Expr::UnaryOp { operand, .. } => state_count(*operand) + 2,
        Expr::BinaryOp { left, op, right } => match op {
            Operation::Or => state_count(*left) + state_count(*right) + 2,
            Operation::And => state_count(*left) + state_count(*right),
        },
    }
}

/// The number of transitions of the automaton of `e`.
pub open spec fn transition_count(e: Expr) -> nat
    decreases e,
{
    match e {
        Expr::Char(_) => 1,
        Expr::UnaryOp { operand, op } => transition_count(*operand) + if op == UnaryOp::Kleene {
            4nat
        } else {
            3nat
        },
        Expr::BinaryOp { left, op, right } => match op {
            Operation::Or => transition_count(*left) + transition_count(*right) + 4,
            Operation::And => transition_count(*left) + transition_count(*right) + 1,
        },
    }
}

/// Whether the automaton of `e` fits the graph's 32-bit indices.
pub open spec fn fits(e: Expr) -> bool {
    state_count(e) < u32::MAX && transition_count(e) < u32::MAX
}

/// The construction of `e` is well formed and has `state_count(e)` nodes and
/// `transition_count(e)` edges.
pub proof fn lemma_thompson_shape(e: Expr)
    ensures
        wf_fragment(thompson(e)),
        thompson(e).nodes.len() == state_count(e),
        thompson(e).edges.len() == transition_count(e),
    decreases e,
{
    match e {
        Expr::Char(c) => {},
        Expr::UnaryOp { operand, op } => {
            lemma_thompson_shape(*operand);
            let f = thompson(*operand);
            let g = thompson(e);
            assert forall|i: int| 0 <= i < g.edges.len() implies #[trigger] g.edges[i].0
                < g.nodes.len() && g.edges[i].1 < g.nodes.len() by {
                if i < f.edges.len() {
                    assert(g.edges[i] == f.edges[i]);
                }
            }
        },
        Expr::BinaryOp { left, op, right } => {
            lemma_thompson_shape(*left);
            lemma_thompson_shape(*right);
            let l = thompson(*left);
            let r = thompson(*right);
            let g = thompson(e);
            let me = merged_edges(l.edges, r.edges, l.nodes.len());
            assert forall|i: int| 0 <= i < me.len() implies #[trigger] me[i].0 < l.nodes.len()
                + r.nodes.len() && me[i].1 < l.nodes.len() + r.nodes.len() by {
                if i < l.edges.len() {
                    assert(me[i] == l.edges[i]);
                } else {
                    assert(me[i] == shifted(r.edges, l.nodes.len())[i - l.edges.len()]);
                    assert(r.edges[i - l.edges.len()].0 < r.nodes.len());
                }
            }
            assert forall|i: int| 0 <= i < g.edges.len() implies #[trigger] g.edges[i].0
                < g.nodes.len() && g.edges[i].1 < g.nodes.len() by {
                if i < me.len() {
                    assert(g.edges[i] == me[i]);
                }
            }
        },
    }
}

/// The prefix letter for nesting depth `index`.
fn usize_to_char(index: usize) -> (c: char)
    ensures
        c == letter(index as nat),
{
    let b: u8 = 97u8.wrapping_add((index % 256) as u8);
    b as char
}

/// A two-character state label.
fn make_label(prefix: char, digit: char) -> (s: String)
    ensures
        s@ == state_label(prefix, digit),
{
    let mut s = String::new();
    push_char(&mut s, prefix);
    push_char(&mut s, digit);
    assert(s@ =~= state_label(prefix, digit));
    s
}

/// The label of an epsilon edge.
fn epsilon_label() -> (s: String)
    ensures
        s@ == epsilon(),
{
    let mut s = String::new();
    push_char(&mut s, EPSILON);
    assert(s@ =~= epsilon());
    s
}

/// An automaton fragment under construction: a graph with one entry node and
/// one accepting node, and the nesting depth that prefixes new state labels.
pub struct Construction {
    pub graph: Automaton,
    start: usize,
    end: usize,
    level: usize,
}

impl View for Construction {
    type V = Fragment;

    closed spec fn view(&self) -> Fragment {
        Fragment {
            nodes: graph_nodes(self.graph),
            edges: graph_edges(self.graph),
            start: self.start as nat,
            end: self.end as nat,
            level: self.level as nat,
        }
    }
}

/// Every edge of `edges` joins two of the first `n` nodes.
pub open spec fn edges_within(edges: Seq<Transition>, n: nat) -> bool {
    forall|i: int| 0 <= i < edges.len() ==> #[trigger] edges[i].0 < n && edges[i].1 < n
}

/// Puts the nodes and edges of `b` after those of `a`. Returns the combined
/// graph and, for each graph, where each of its nodes went.
fn merge(a: Automaton, b: &Automaton) -> (r: (Automaton, Vec<usize>, Vec<usize>))
    requires
        graph_nodes(a).len() + graph_nodes(*b).len() < u32::MAX,
        graph_edges(a).len() + graph_edges(*b).len() < u32::MAX,
        edges_within(graph_edges(*b), graph_nodes(*b).len()),
    ensures
        graph_nodes(r.0) == merged_nodes(graph_nodes(a), graph_nodes(*b)),
        graph_edges(r.0) == merged_edges(graph_edges(a), graph_edges(*b), graph_nodes(a).len()),
        r.1@.len() == graph_nodes(a).len(),
        forall|i: int| 0 <= i < r.1@.len() ==> r.1@[i] == i,
        r.2@.len() == graph_nodes(*b).len(),
        forall|i: int| 0 <= i < r.2@.len() ==> r.2@[i] == graph_nodes(a).len() + i,
{
    let ghost na = graph_nodes(a).len();
    let ghost ea = graph_edges(a);
    let ghost bn = graph_nodes(*b);
    let ghost be = graph_edges(*b);
    let mut g = a;
    let n_a = node_count(&g);
    let n_b = node_count(b);
    let e_b = edge_count(b);
    let mut map_a: Vec<usize> = Vec::new();
    let mut i: usize = 0;
    while i < n_a
        invariant
            n_a == na,
            i <= n_a,
            map_a@.len() == i,
            forall|j: int| 0 <= j < i ==> map_a@[j] == j,
        decreases n_a - i,
    {
        map_a.push(i);
        i = i + 1;
    }
    let mut map_b: Vec<usize> = Vec::new();
    let mut i: usize = 0;
    while i < n_b
        invariant
            n_a == na,
            n_b == bn.len(),
            bn == graph_nodes(*b),
            na == graph_nodes(a).len(),
            na + bn.len() < u32::MAX,
            i <= n_b,
            graph_nodes(g) == graph_nodes(a) + bn.subrange(0, i as int),
            graph_edges(g) == ea,
            map_b@.len() == i,
            forall|j: int| 0 <= j < i ==> map_b@[j] == na + j,
        decreases n_b - i,
    {
        match node_weight(b, i) {
            Some(w) => {
                add_node(&mut g, w);
                assert(bn.subrange(0, i + 1) =~= bn.subrange(0, i as int).push(bn[i as int]));
            },
            None => {},
        }
        map_b.push(n_a + i);
        i = i + 1;
    }
    assert(bn.subrange(0, n_b as int) =~= bn);
    let mut e: usize = 0;
    while e < e_b
        invariant
            n_a == na,
            e_b == be.len(),
            be == graph_edges(*b),
            graph_nodes(g) == graph_nodes(a) + bn,
            bn == graph_nodes(*b),
            ea == graph_edges(a),
            ea.len() + be.len() < u32::MAX,
            na == graph_nodes(a).len(),
            na + bn.len() < u32::MAX,
            edges_within(be, bn.len()),
            e <= e_b,
            graph_edges(g) == ea + shifted(be.subrange(0, e as int), na),
        decreases e_b - e,
    {
        match (edge_endpoints(b, e), edge_weight(b, e)) {
            (Some((s, t)), Some(w)) => {
                assert(be[e as int].0 < bn.len());
                add_edge(&mut g, n_a + s, n_a + t, w);
                assert(shifted(be.subrange(0, e + 1), na) =~= shifted(
                    be.subrange(0, e as int),
                    na,
                ).push((be[e as int].0 + na, be[e as int].1 + na, be[e as int].2)));
            },
            _ => {},
        }
        e = e + 1;
    }
    assert(be.subrange(0, e_b as int) =~= be);
    (g, map_a, map_b)
}

/// The fragment of a single symbol: nodes `q0` and `q1`, one edge from the
/// first to the second carrying `a`, depth 0.
pub fn construct_char(a: String) -> (c: Construction)
    ensures
        c@ == literal_fragment(a@),
        wf_fragment(c@),
{
    let mut g = new_graph();
    let start = add_node(&mut g, make_label('q', '0'));
    let end = add_node(&mut g, make_label('q', '1'));
    add_edge(&mut g, start, end, a);
    let c = Construction { graph: g, start, end, level: 0 };
    assert(c@.nodes =~= literal_fragment(a@).nodes);
    assert(c@.edges =~= literal_fragment(a@).edges);
    c
}

/// Kleene star around `c`: see `repeat_fragment`, with the bypass edge.
fn compose_kleene(c: Construction) -> (r: Construction)
    requires
        wf_fragment(c@),
        c@.nodes.len() + 2 < u32::MAX,
        c@.edges.len() + 4 < u32::MAX,
    ensures
        r@ == repeat_fragment(c@, true),
{
    let ghost f = c@;
    let mut g = c.graph;
    let label = usize_to_char(c.level);
    let q0 = add_node(&mut g, make_label(label, '0'));
    let q3 = add_node(&mut g, make_label(label, '3'));
    let q1 = c.start;
    let q2 = c.end;
    add_edge(&mut g, q2, q1, epsilon_label());
    add_edge(&mut g, q0, q3, epsilon_label());
    add_edge(&mut g, q0, q1, epsilon_label());
    add_edge(&mut g, q2, q3, epsilon_label());
    set_node_weight(&mut g, q1, make_label(label, '1'));
    set_node_weight(&mut g, q2, make_label(label, '2'));
    let r = Construction { graph: g, start: q0, end: q3, level: c.level + 1 };
    let ghost want = repeat_fragment(f, true);
    assert(r@.nodes =~= want.nodes);
    assert(r@.edges =~= want.edges);
    r
}

/// One or more repetitions of `c`: see `repeat_fragment`, without the bypass
/// edge.
fn compose_plus(c: Construction) -> (r: Construction)
    requires
        wf_fragment(c@),
        c@.nodes.len() + 2 < u32::MAX,
        c@.edges.len() + 3 < u32::MAX,
    ensures
        r@ == repeat_fragment(c@, false),
{
    let ghost f = c@;
    let mut g = c.graph;
    let label = usize_to_char(c.level);
    let q0 = add_node(&mut g, make_label(label, '0'));
    let q3 = add_node(&mut g, make_label(label, '3'));
    let q1 = c.start;
    let q2 = c.end;
    add_edge(&mut g, q2, q1, epsilon_label());
    add_edge(&mut g, q0, q1, epsilon_label());
    add_edge(&mut g, q2, q3, epsilon_label());
    set_node_weight(&mut g, q1, make_label(label, '1'));
    set_node_weight(&mut g, q2, make_label(label, '2'));
    let r = Construction { graph: g, start: q0, end: q3, level: c.level + 1 };
    let ghost want = repeat_fragment(f, false);
    assert(r@.nodes =~= want.nodes);
    assert(r@.edges =~= want.edges);
    r
}

/// Alternation of `left` and `right`: see `alternate_fragment`.
fn compose_or(left: Construction, right: Construction) -> (r: Construction)
    requires
        wf_fragment(left@),
        wf_fragment(right@),
        left@.nodes.len() + right@.nodes.len() + 2 < u32::MAX,
        left@.edges.len() + right@.edges.len() + 4 < u32::MAX,
    ensures
        r@ == alternate_fragment(left@, right@),
{
    let ghost l = left@;
    let ghost rf = right@;
    let (mut g, map_l, map_r) = merge(left.graph, &right.graph);
    let level = if left.level >= right.level {
        left.level
    } else {
        right.level
    };
    let label = usize_to_char(level);
    let s = add_node(&mut g, make_label(label, '0'));
    let t = add_node(&mut g, make_label(label, '3'));
    add_edge(&mut g, s, map_l[left.start], epsilon_label());
    add_edge(&mut g, s, map_r[right.start], epsilon_label());
    add_edge(&mut g, map_l[left.end], t, epsilon_label());
    add_edge(&mut g, map_r[right.end], t, epsilon_label());
    let r = Construction { graph: g, start: s, end: t, level: level + 1 };
    let ghost want = alternate_fragment(l, rf);
    assert(r@.nodes =~= want.nodes);
    assert(r@.edges =~= want.edges);
    r
}

/// Concatenation of `left` and `right`: see `concat_fragment`.
fn compose_and(left: Construction, right: Construction) -> (r: Construction)
    requires
        wf_fragment(left@),
        wf_fragment(right@),
        left@.nodes.len() + right@.nodes.len() < u32::MAX,
        left@.edges.len() + right@.edges.len() + 1 < u32::MAX,
    ensures
        r@ == concat_fragment(left@, right@),
{
    let ghost l = left@;
    let ghost rf = right@;
    let (mut g, map_l, map_r) = merge(left.graph, &right.graph);
    let level = if left.level >= right.level {
        left.level
    } else {
        right.level
    };
    add_edge(&mut g, map_l[left.end], map_r[right.start], epsilon_label());
    let r = Construction { graph: g, start: map_l[left.start], end: map_r[right.end], level };
    let ghost want = concat_fragment(l, rf);
    assert(r@.nodes =~= want.nodes);
    assert(r@.edges =~= want.edges);
    r
}

/// Thompson's construction of `expr`: the fragment is exactly
/// `thompson(expr)`. The automaton must fit the graph's 32-bit indices.
pub fn to_construction(expr: &Expr) -> (c: Construction)
    requires
        fits(*expr),
    ensures
        c@ == thompson(*expr),
        wf_fragment(c@),
    decreases expr,
{
    proof {
        lemma_thompson_shape(*expr);
    }
    match expr {
        Expr::Char(c) => {
            let mut a = String::new();
            push_char(&mut a, *c);
            assert(a@ =~= seq![*c]);
            construct_char(a)
        },
        Expr::BinaryOp { left, op, right } => {
            proof {
                lemma_thompson_shape(**left);
                lemma_thompson_shape(**right);
            }
            let l = to_construction(left);
            let r = to_construction(right);
            match op {
                Operation::Or => compose_or(l, r),
                Operation::And => compose_and(l, r),
            }
        },
        Expr::UnaryOp { operand, op } => {
            proof {
                lemma_thompson_shape(**operand);
            }
            let c = to_construction(operand);
            match op {
                UnaryOp::Kleene => compose_kleene(c),
                UnaryOp::Plus => compose_plus(c),
            }
        },
    }
}

/// The number of literal nodes in `e`.
pub open spec fn literal_count(e: Expr) -> nat
    decreases e,
{
    match e {
        Expr::Char(_) => 1,
        Expr::UnaryOp { operand, .. } => literal_count(*operand),
        Expr::BinaryOp { left, right, .. } => literal_count(*left) + literal_count(*right),
    }
}

/// No literal of `e` is the epsilon symbol itself.
pub open spec fn no_epsilon_literal(e: Expr) -> bool
    decreases e,
{
    match e {
        Expr::Char(c) => c != EPSILON,
        Expr::UnaryOp { operand, .. } => no_epsilon_literal(*operand),
        Expr::BinaryOp { left, right, .. } => no_epsilon_literal(*left) && no_epsilon_literal(
            *right,
        ),
    }
}

/// The number of edges that carry a symbol rather than epsilon.
pub open spec fn symbol_edge_count(edges: Seq<Transition>) -> nat
    decreases edges.len(),
{
    if edges.len() == 0 {
        0
    } else {
        symbol_edge_count(edges.drop_last()) + if edges.last().2 != epsilon() {
            1nat
        } else {
            0nat
        }
    }
}

proof fn lemma_symbol_edge_count_add(a: Seq<Transition>, b: Seq<Transition>)
    ensures
        symbol_edge_count(a + b) == symbol_edge_count(a) + symbol_edge_count(b),
    decreases b.len(),
{
    if b.len() == 0 {
        assert(a + b =~= a);
    } else {
        assert((a + b).drop_last() =~= a + b.drop_last());
        lemma_symbol_edge_count_add(a, b.drop_last());
    }
}

proof fn lemma_symbol_edge_count_shifted(b: Seq<Transition>, k: nat)
    ensures
        symbol_edge_count(shifted(b, k)) == symbol_edge_count(b),
    decreases b.len(),
{
    if b.len() > 0 {
        assert(shifted(b, k).drop_last() =~= shifted(b.drop_last(), k));
        lemma_symbol_edge_count_shifted(b.drop_last(), k);
    }
}

proof fn lemma_symbol_edge_count_epsilon(b: Seq<Transition>)
    requires
        forall|i: int| 0 <= i < b.len() ==> (#[trigger] b[i]).2 == epsilon(),
    ensures
        symbol_edge_count(b) == 0,
    decreases b.len(),
{
    if b.len() > 0 {
        lemma_symbol_edge_count_epsilon(b.drop_last());
    }
}

/// The symbols of the literals of `e`, with multiplicity.
pub open spec fn literal_symbols(e: Expr) -> Multiset<Seq<char>>
    decreases e,
{
    match e {
        Expr::Char(c) => Multiset::empty().insert(seq![c]),
        Expr::UnaryOp { operand, .. } => literal_symbols(*operand),
        Expr::BinaryOp { left, right, .. } => literal_symbols(*left).add(literal_symbols(*right)),
    }
}

/// The symbols carried by the edges that are not epsilon, with multiplicity.
pub open spec fn edge_symbols(edges: Seq<Transition>) -> Multiset<Seq<char>>
    decreases edges.len(),
{
    if edges.len() == 0 {
        Multiset::empty()
    } else if edges.last().2 != epsilon() {
        edge_symbols(edges.drop_last()).insert(edges.last().2)
    } else {
        edge_symbols(edges.drop_last())
    }
}

proof fn lemma_edge_symbols_add(a: Seq<Transition>, b: Seq<Transition>)
    ensures
        edge_symbols(a + b) == edge_symbols(a).add(edge_symbols(b)),
    decreases b.len(),
{
    if b.len() == 0 {
        assert(a + b =~= a);
        assert(edge_symbols(a).add(edge_symbols(b)) =~= edge_symbols(a));
    } else {
        assert((a + b).drop_last() =~= a + b.drop_last());
        lemma_edge_symbols_add(a, b.drop_last());
        assert(edge_symbols(a + b) =~= edge_symbols(a).add(edge_symbols(b)));
    }
}

proof fn lemma_edge_symbols_shifted(b: Seq<Transition>, k: nat)
    ensures
        edge_symbols(shifted(b, k)) == edge_symbols(b),
    decreases b.len(),
{
    if b.len() > 0 {
        assert(shifted(b, k).drop_last() =~= shifted(b.drop_last(), k));
        lemma_edge_symbols_shifted(b.drop_last(), k);
    }
}

proof fn lemma_edge_symbols_epsilon(b: Seq<Transition>)
    requires
        forall|i: int| 0 <= i < b.len() ==> (#[trigger] b[i]).2 == epsilon(),
    ensures
        edge_symbols(b) == Multiset::<Seq<char>>::empty(),
    decreases b.len(),
{
    if b.len() > 0 {
        lemma_edge_symbols_epsilon(b.drop_last());
    }
}

/// Composition adds only epsilon edges: the edges of the automaton of `e`
/// that carry a symbol are exactly one per literal of `e`, and carry the
/// literals' symbols with the same multiplicities, provided no literal is the
/// epsilon symbol itself.
pub proof fn lemma_literal_edges_conserved(e: Expr)
    requires
        no_epsilon_literal(e),
    ensures
        symbol_edge_count(thompson(e).edges) == literal_count(e),
        edge_symbols(thompson(e).edges) == literal_symbols(e),
    decreases e,
{
    match e {
        Expr::Char(c) => {
            let edges = thompson(e).edges;
            assert(edges.drop_last() =~= Seq::<Transition>::empty());
            assert(symbol_edge_count(edges.drop_last()) == 0);
            assert(edge_symbols(edges.drop_last()) == Multiset::<Seq<char>>::empty());
            assert(edges.last().2 == seq![c]);
            assert(seq![c] != epsilon()) by {
                assert(seq![c][0] != epsilon()[0]);
            }
        },
        Expr::UnaryOp { operand, op } => {
            lemma_literal_edges_conserved(*operand);
            let f = thompson(*operand);
            let n = f.nodes.len();
            let extra = if op == UnaryOp::Kleene {
                seq![
                    (f.end, f.start, epsilon()),
                    (n, n + 1, epsilon()),
                    (n, f.start, epsilon()),
                    (f.end, n + 1, epsilon()),
                ]
            } else {
                seq![(f.end, f.start, epsilon()), (n, f.start, epsilon()), (f.end, n + 1, epsilon())]
            };
            assert(thompson(e).edges == f.edges + extra);
            lemma_symbol_edge_count_epsilon(extra);
            lemma_symbol_edge_count_add(f.edges, extra);
            lemma_edge_symbols_epsilon(extra);
            lemma_edge_symbols_add(f.edges, extra);
            assert(edge_symbols(f.edges).add(Multiset::empty()) =~= edge_symbols(f.edges));
        },
        Expr::BinaryOp { left, op, right } => {
            lemma_literal_edges_conserved(*left);
            lemma_literal_edges_conserved(*right);
            let l = thompson(*left);
            let r = thompson(*right);
            let nl = l.nodes.len();
            let m = nl + r.nodes.len();
            lemma_symbol_edge_count_shifted(r.edges, nl);
            lemma_symbol_edge_count_add(l.edges, shifted(r.edges, nl));
            lemma_edge_symbols_shifted(r.edges, nl);
            lemma_edge_symbols_add(l.edges, shifted(r.edges, nl));
            let me = merged_edges(l.edges, r.edges, nl);
            let extra = if op == Operation::Or {
                seq![
                    (m, l.start, epsilon()),
                    (m, nl + r.start, epsilon()),
                    (l.end, m + 1, epsilon()),
                    (nl + r.end, m + 1, epsilon()),
                ]
            } else {
                seq![(l.end, nl + r.start, epsilon())]
            };
            assert(thompson(e).edges =~= me + extra);
            lemma_symbol_edge_count_epsilon(extra);
            lemma_symbol_edge_count_add(me, extra);
            lemma_edge_symbols_epsilon(extra);
            lemma_edge_symbols_add(me, extra);
            assert(edge_symbols(me).add(Multiset::empty()) =~= edge_symbols(me));
        },
    }
}

/// The star and the one-or-more automata of the same operand have the same
/// nodes, entry and accepting nodes; the star has exactly one more edge, the
/// epsilon bypass from its entry to its accepting node.
pub proof fn lemma_star_is_plus_with_bypass(e: Expr)
    ensures
        ({
            let s = thompson(Expr::UnaryOp { operand: Box::new(e), op: UnaryOp::Kleene });
            let p = thompson(Expr::UnaryOp { operand: Box::new(e), op: UnaryOp::Plus });
            &&& s.nodes == p.nodes
            &&& s.start == p.start
            &&& s.end == p.end
            &&& s.edges.len() == p.edges.len() + 1
            &&& s.edges.contains((s.start, s.end, epsilon()))
            &&& !p.edges.contains((p.start, p.end, epsilon()))
            &&& s.edges.to_multiset() == p.edges.to_multiset().insert((s.start, s.end, epsilon()))
        }),
{
    let s = thompson(Expr::UnaryOp { operand: Box::new(e), op: UnaryOp::Kleene });
    let p = thompson(Expr::UnaryOp { operand: Box::new(e), op: UnaryOp::Plus });
    lemma_thompson_shape(e);
    let f = thompson(e);
    let n = f.nodes.len();
    assert(s.edges[f.edges.len() as int + 1] == (n, n + 1, epsilon()));
    assert forall|i: int| 0 <= i < p.edges.len() implies p.edges[i] != (p.start, p.end,
        epsilon()) by {
        let pe = f.edges + seq![(f.end, f.start, epsilon()), (n, f.start, epsilon()), (f.end, n + 1, epsilon())];
        assert(p.edges == pe);
        if i < f.edges.len() {
            assert(pe[i] == f.edges[i]);
            assert(f.edges[i].0 < n);
        } else {
            assert(pe[i] == seq![(f.end, f.start, epsilon()), (n, f.start, epsilon()), (f.end, n + 1, epsilon())][i - f.edges.len()]);
        }
    }
    let x = (n, n + 1, epsilon());
    assert(s.edges =~= f.edges + seq![(f.end, f.start, epsilon())] + seq![x] + seq![
        (n, f.start, epsilon()),
        (f.end, n + 1, epsilon()),
    ]);
    assert(p.edges =~= f.edges + seq![(f.end, f.start, epsilon())] + seq![
        (n, f.start, epsilon()),
        (f.end, n + 1, epsilon()),
    ]);
    let a = f.edges + seq![(f.end, f.start, epsilon())];
    let b = seq![(n, f.start, epsilon()), (f.end, n + 1, epsilon())];
    vstd::seq_lib::lemma_multiset_commutative(a + seq![x], b);
    vstd::seq_lib::lemma_multiset_commutative(a, seq![x]);
    vstd::seq_lib::lemma_multiset_commutative(a, b);
    assert(seq![x].to_multiset() =~= Multiset::empty().insert(x)) by {
        assert(seq![x] =~= Seq::<Transition>::empty().push(x));
        Seq::<Transition>::empty().to_multiset_ensures();
        Seq::<Transition>::empty().push(x).to_multiset_ensures();
    }
    assert(s.edges.to_multiset() =~= p.edges.to_multiset().insert(x));
}

/// `n`, or `u32::MAX` when it is larger.
pub open spec fn capped(n: nat) -> nat {
    if n < u32::MAX {
        n
    } else {
        u32::MAX as nat
    }
}

fn cap_sum(a: u64, b: u64, k: u64) -> (r: u64)
    requires
        a <= u32::MAX,
        b <= u32::MAX,
        k <= 4,
    ensures
        r == capped((a + b + k) as nat),
{
    let s = a + b + k;
    if s < 0xffff_ffff {
        s
    } else {
        0xffff_ffff
    }
}

/// The state and transition counts of the automaton of `e`, each capped at
/// `u32::MAX`.
fn capped_counts(e: &Expr) -> (r: (u64, u64))
    ensures
        r.0 == capped(state_count(*e)),
        r.1 == capped(transition_count(*e)),
    decreases e,
{
    match e {
        Expr::Char(_) => (2, 1),
        Expr::UnaryOp { operand, op } => {
            let (s, t) = capped_counts(operand);
            let k: u64 = match op {
                UnaryOp::Kleene => 4,
                UnaryOp::Plus => 3,
            };
            (cap_sum(s, 0, 2), cap_sum(t, 0, k))
        },
        Expr::BinaryOp { left, op, right } => {
            let (ls, lt) = capped_counts(left);
            let (rs, rt) = capped_counts(right);
            match op {
                Operation::Or => (cap_sum(ls, rs, 2), cap_sum(lt, rt, 4)),
                Operation::And => (cap_sum(ls, rs, 0), cap_sum(lt, rt, 1)),
            }
        },
    }
}

/// Builds the automaton of `expr` by Thompson's construction. Returns `None`
/// exactly when it would not fit the graph's 32-bit indices.
pub fn build(expr: &Expr) -> (r: Option<Construction>)
    ensures
        r is Some <==> fits(*expr),
        r is Some ==> r->0@ == thompson(*expr),
{
    let (s, t) = capped_counts(expr);
    if s < 0xffff_ffff && t < 0xffff_ffff {
        Some(to_construction(expr))
    } else {
        None
    }
}

impl Construction {
    /// The graph of the fragment, whose node labels and edges are those of
    /// its model.
    pub fn graph(&self) -> (r: &Automaton)
        ensures
            graph_nodes(*r) == self@.nodes,
            graph_edges(*r) == self@.edges,
    {
        &self.graph
    }

    /// The entry node.
    pub fn start(&self) -> (r: usize)
        ensures
            r == self@.start,
    {
        self.start
    }

    /// The accepting node.
    pub fn end(&self) -> (r: usize)
        ensures
            r == self@.end,
    {
        self.end
    }

    /// The nesting depth that prefixes the labels of the next enclosing
    /// repetition or alternation.
    pub fn level(&self) -> (r: usize)
        ensures
            r == self@.level,
    {
        self.level
    }
}

/// Wrapping an automaton in a star keeps every node identifier, takes the two
/// next ones for its new entry and accepting nodes, keeps every label but
/// those of the old entry and accepting nodes, and raises the depth by one.
/// The prefix of each level comes after the one below it in the alphabet
/// while the byte `b'a' + depth` does not wrap.
pub proof fn lemma_star_nesting(e: Expr)
    ensures
        ({
            let f = thompson(e);
            let s = thompson(Expr::UnaryOp { operand: Box::new(e), op: UnaryOp::Kleene });
            &&& s.nodes.len() == f.nodes.len() + 2
            &&& s.start == f.nodes.len()
            &&& s.end == f.nodes.len() + 1
            &&& s.level == f.level + 1
            &&& s.nodes[s.start as int] == state_label(letter(f.level), '0')
            &&& s.nodes[s.end as int] == state_label(letter(f.level), '3')
            &&& s.nodes[f.start as int] == state_label(letter(f.level), '1')
            &&& s.nodes[f.end as int] == state_label(letter(f.level), '2')
            &&& forall|i: int|
                0 <= i < f.nodes.len() && i != f.start && i != f.end ==> #[trigger] s.nodes[i]
                    == f.nodes[i]
            &&& f.level + 97 < 255 ==> (letter(f.level) as u32) < (letter(s.level) as u32)
        }),
{
    lemma_thompson_shape(e);
}

} // verus!
