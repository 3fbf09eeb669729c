use nfa_thompson::ast::{and, char, or, plus, star, Expr};
use nfa_thompson::graph::{build, construct_char, to_construction, Construction, EPSILON};
use petgraph::graph::{EdgeIndex, NodeIndex};
use petgraph::graph6::get_graph6_representation;

fn labels(c: &Construction) -> Vec<String> {
    (0..c.graph.node_count())
        .map(|i| c.graph[NodeIndex::new(i)].clone())
        .collect()
}

fn edges(c: &Construction) -> Vec<(usize, usize, String)> {
    (0..c.graph.edge_count())
        .map(|i| {
            let e = EdgeIndex::new(i);
            let (a, b) = c.graph.edge_endpoints(e).unwrap();
            (a.index(), b.index(), c.graph[e].clone())
        })
        .collect()
}

fn eps() -> String {
    EPSILON.to_string()
}

fn closure(c: &Construction, states: Vec<usize>) -> Vec<usize> {
    let mut seen = states;
    let mut i = 0;
    while i < seen.len() {
        let s = seen[i];
        for (a, b, w) in edges(c) {
            if a == s && w == eps() && !seen.contains(&b) {
                seen.push(b);
            }
        }
        i += 1;
    }
    seen
}

fn accepts(c: &Construction, word: &str) -> bool {
    let mut current = closure(c, vec![c.start()]);
    for ch in word.chars() {
        let mut next = Vec::new();
        for (a, b, w) in edges(c) {
            if current.contains(&a) && w == ch.to_string() && !next.contains(&b) {
                next.push(b);
            }
        }
        current = closure(c, next);
    }
    current.contains(&c.end())
}

fn literal_edges(c: &Construction) -> usize {
    edges(c).iter().filter(|e| e.2 != eps()).count()
}

#[test]
fn test_single_char() {
    let expr = char('a');
    let c = to_construction(&expr).graph;
    let g6 = get_graph6_representation(&c);
    assert_eq!(c.node_count(), 2, "The graph should have 2 nodes");
    assert_eq!(g6, "A_")
}

#[test]
fn test_kleene() {
    let expr = star(char('a'));
    let c = to_construction(&expr);
    let g6 = get_graph6_representation(&c.graph);
    println!("Kleene: {}", g6);
    assert_eq!(c.graph.node_count(), 4, "The kleene graph should have 4 nodes");
    assert_eq!(c.graph.edge_count(), 5, "The kleene graph should have 5 edges");
    assert_eq!(g6, "Cb")
}

#[test]
fn test_plus() {
    let expr = plus(char('a'));
    let c = to_construction(&expr);
    let g6 = get_graph6_representation(&c.graph);
    println!("Plus: {}", g6);
    assert_eq!(c.graph.node_count(), 4, "The plus graph should have 4 nodes");
    assert_eq!(c.graph.edge_count(), 4, "The plus graph should have 4 edges");
    assert_eq!(g6, "Ca")
}

#[test]
fn literal_has_one_edge_with_its_symbol() {
    let c = to_construction(&char('a'));
    assert_eq!(labels(&c), vec!["q0", "q1"]);
    assert_eq!(edges(&c), vec![(0, 1, "a".to_string())]);
    assert_eq!((c.start(), c.end(), c.level()), (0, 1, 0));
}

#[test]
fn construct_char_takes_any_symbol() {
    let c = construct_char("xy".to_string());
    assert_eq!(labels(&c), vec!["q0", "q1"]);
    assert_eq!(edges(&c), vec![(0, 1, "xy".to_string())]);
}

#[test]
fn star_wires_loop_bypass_enter_exit() {
    let c = to_construction(&star(char('a')));
    assert_eq!(labels(&c), vec!["a1", "a2", "a0", "a3"]);
    assert_eq!(
        edges(&c),
        vec![
            (0, 1, "a".to_string()),
            (1, 0, eps()),
            (2, 3, eps()),
            (2, 0, eps()),
            (1, 3, eps()),
        ]
    );
    assert_eq!((c.start(), c.end(), c.level()), (2, 3, 1));
}

#[test]
fn plus_has_no_bypass() {
    let c = to_construction(&plus(char('a')));
    assert_eq!(labels(&c), vec!["a1", "a2", "a0", "a3"]);
    assert_eq!(
        edges(&c),
        vec![(0, 1, "a".to_string()), (1, 0, eps()), (2, 0, eps()), (1, 3, eps())]
    );
    assert!(!edges(&c).contains(&(2, 3, eps())));
    assert_eq!((c.start(), c.end(), c.level()), (2, 3, 1));
}

#[test]
fn star_plus_and_literal_encode_differently() {
    let l = get_graph6_representation(&to_construction(&char('a')).graph);
    let s = get_graph6_representation(&to_construction(&star(char('a'))).graph);
    let p = get_graph6_representation(&to_construction(&plus(char('a'))).graph);
    assert_ne!(s, p);
    assert_ne!(s, l);
    assert_ne!(p, l);
}

#[test]
fn nested_star_uses_a_new_prefix_per_level() {
    let c = to_construction(&star(star(char('a'))));
    let ls = labels(&c);
    assert_eq!(ls, vec!["a1", "a2", "b1", "b2", "b0", "b3"]);
    for i in 0..ls.len() {
        for j in (i + 1)..ls.len() {
            assert_ne!(ls[i], ls[j]);
        }
    }
    assert_eq!((c.start(), c.end(), c.level()), (4, 5, 2));
    assert_eq!(c.graph.edge_count(), 9);
    assert!(accepts(&c, ""));
    assert!(accepts(&c, "aaa"));
    assert!(!accepts(&c, "b"));
}

#[test]
fn alternation_accepts_either_symbol() {
    let c = to_construction(&or(char('a'), char('b')));
    assert_eq!(labels(&c), vec!["q0", "q1", "q0", "q1", "a0", "a3"]);
    assert_eq!(
        edges(&c),
        vec![
            (0, 1, "a".to_string()),
            (2, 3, "b".to_string()),
            (4, 0, eps()),
            (4, 2, eps()),
            (1, 5, eps()),
            (3, 5, eps()),
        ]
    );
    assert_eq!((c.start(), c.end(), c.level()), (4, 5, 1));
    assert!(accepts(&c, "a"));
    assert!(accepts(&c, "b"));
    assert!(!accepts(&c, "ab"));
    assert!(!accepts(&c, ""));
    assert!(!accepts(&c, "c"));
}

#[test]
fn concatenation_accepts_the_sequence() {
    let c = to_construction(&and(char('a'), char('b')));
    assert_eq!(labels(&c), vec!["q0", "q1", "q0", "q1"]);
    assert_eq!(
        edges(&c),
        vec![(0, 1, "a".to_string()), (2, 3, "b".to_string()), (1, 2, eps())]
    );
    assert_eq!((c.start(), c.end(), c.level()), (0, 3, 0));
    assert!(accepts(&c, "ab"));
    assert!(!accepts(&c, "a"));
    assert!(!accepts(&c, "ba"));
    assert!(!accepts(&c, "abb"));
}

#[test]
fn literal_edges_match_literal_count() {
    let e = star(or(and(char('a'), char('b')), char('b')));
    let c = to_construction(&e);
    assert_eq!(literal_edges(&c), 3);
    assert_eq!(c.graph.node_count(), 10);
    assert_eq!(c.graph.edge_count(), 12);
    assert!(accepts(&c, ""));
    assert!(accepts(&c, "abbab"));
    assert!(!accepts(&c, "aa"));
    let p = to_construction(&plus(and(char('a'), char('b'))));
    assert_eq!(literal_edges(&p), 2);
    assert!(accepts(&p, "abab"));
    assert!(!accepts(&p, ""));
}

#[test]
fn build_returns_the_construction() {
    let e = or(star(char('x')), plus(char('y')));
    let c = build(&e).unwrap();
    let d = to_construction(&e);
    assert_eq!(labels(&c), labels(&d));
    assert_eq!(edges(&c), edges(&d));
    assert_eq!((c.start(), c.end(), c.level()), (d.start(), d.end(), d.level()));
    assert_eq!(c.level(), 2);
    assert_eq!(labels(&c)[8..].to_vec(), vec!["b0", "b3"]);
}

#[test]
fn expression_text_and_trim() {
    let e = star(or(and(char('a'), char('b')), char('b')));
    assert_eq!(e.to_string(), "(*((ab)|b))");
    assert_eq!(e.trim(), "*((ab)|b)");
    let p = plus(and(char('a'), char('b')));
    assert_eq!(p.trim(), "+(ab)");
    assert_eq!(char('a').to_string(), "a");
    assert_eq!(char('a').trim(), "");
    assert_eq!(char('\u{3b5}').trim(), "");
    let x: Expr = or(char('a'), char('b'));
    assert_eq!(x.trim(), "a|b");
}

#[test]
fn walk_visits_every_node_in_preorder() {
    let e = star(or(and(char('a'), char('b')), char('b')));
    assert_eq!(
        e.walk_plan(),
        vec!["*((ab)|b)", "(ab) | b", "a  b", "a", "b", "b"]
    );
    assert_eq!(char('x').walk_plan(), vec!["x"]);
    assert_eq!(plus(char('y')).walk_plan(), vec!["+y", "y"]);
}

#[test]
fn graph_accessor_returns_the_built_graph() {
    let c = to_construction(&or(char('a'), char('b')));
    assert_eq!(c.graph().node_count(), 6);
    assert_eq!(c.graph().edge_count(), 6);
    assert_eq!(c.graph()[NodeIndex::new(4)], "a0");
}

#[test]
fn literal_edges_carry_the_literal_symbols() {
    let e = or(star(and(char('a'), char('b'))), plus(or(char('b'), char('c'))));
    let c = to_construction(&e);
    let mut symbols: Vec<String> = edges(&c).into_iter().map(|e| e.2).filter(|w| *w != eps()).collect();
    symbols.sort();
    assert_eq!(symbols, vec!["a", "b", "b", "c"]);
}
