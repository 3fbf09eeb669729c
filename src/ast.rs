use vstd::prelude::*;

verus! {

/// A regular expression: a single character, a binary operation on two
/// sub-expressions, or a unary operation on one. Each node owns its children.
#[allow(inconsistent_fields)]
pub enum Expr {
    Char(char),
    BinaryOp { left: Box<Expr>, op: Operation, right: Box<Expr> },
    UnaryOp { operand: Box<Expr>, op: UnaryOp },
}

/// Repetition operators.
#[derive(PartialEq, Eq, Structural, Clone, Copy, Debug)]
pub enum UnaryOp {
    /// Zero or more repetitions.
    Kleene,
    /// One or more repetitions.
    Plus,
}

/// Binary operators.
#[derive(PartialEq, Eq, Structural, Clone, Copy, Debug)]
pub enum Operation {
    /// Alternation: either side.
    Or,
    /// Concatenation: left side, then right side.
    And,
}

/// The expression matching exactly the character `c`.
pub fn char(c: char) -> (e: Expr)
    ensures
        e == Expr::Char(c),
{
    Expr::Char(c)
}

/// The alternation of `left` and `right`.
pub fn or(left: Expr, right: Expr) -> (e: Expr)
    ensures
        e == (Expr::BinaryOp { left: Box::new(left), op: Operation::Or, right: Box::new(right) }),
{
    Expr::BinaryOp { left: Box::new(left), op: Operation::Or, right: Box::new(right) }
}

/// The concatenation of `left` and `right`.
pub fn and(left: Expr, right: Expr) -> (e: Expr)
    ensures
        e == (Expr::BinaryOp { left: Box::new(left), op: Operation::And, right: Box::new(right) }),
{
    Expr::BinaryOp { left: Box::new(left), op: Operation::And, right: Box::new(right) }
}

/// Zero or more repetitions of `expr`.
pub fn star(expr: Expr) -> (e: Expr)
    ensures
        e == (Expr::UnaryOp { operand: Box::new(expr), op: UnaryOp::Kleene }),
{
    Expr::UnaryOp { operand: Box::new(expr), op: UnaryOp::Kleene }
}

/// One or more repetitions of `expr`.
pub fn plus(expr: Expr) -> (e: Expr)
    ensures
        e == (Expr::UnaryOp { operand: Box::new(expr), op: UnaryOp::Plus }),
{
    Expr::UnaryOp { operand: Box::new(expr), op: UnaryOp::Plus }
}

/// The symbol written for a binary operator: `|` for alternation, nothing for
/// concatenation.
pub open spec fn operation_text(op: Operation) -> Seq<char> {
    match op {
        Operation::Or => seq!['|'],
        Operation::And => Seq::empty(),
    }
}

/// The symbol written for a unary operator.
pub open spec fn unary_text(op: UnaryOp) -> Seq<char> {
    match op {
        UnaryOp::Kleene => seq!['*'],
        UnaryOp::Plus => seq!['+'],
    }
}

/// The fully parenthesised text of an expression: a character stands alone,
/// `(left op right)` for a binary operation, `(op operand)` for a unary one.
pub open spec fn text_of(e: Expr) -> Seq<char>
    decreases e,
{
    match e {
        Expr::Char(c) => seq![c],
        Expr::BinaryOp { left, op, right } => seq!['('] + text_of(*left) + operation_text(op)
            + text_of(*right) + seq![')'],
        Expr::UnaryOp { operand, op } => seq!['('] + unary_text(op) + text_of(*operand) + seq![
            ')',
        ],
    }
}

/// A text without its first and last characters; empty when it has fewer
/// than two.
pub open spec fn trimmed(s: Seq<char>) -> Seq<char> {
    if s.len() < 2 {
        Seq::empty()
    } else {
        s.subrange(1, s.len() - 1)
    }
}

/// Relies on `String::push`: the character is appended.
#[verifier::external_body]
pub(crate) fn push_char(s: &mut String, c: char)
    ensures
        final(s)@ == old(s)@.push(c),
{
    s.push(c);
}

impl Operation {
    /// The symbol of the operator.
    pub fn symbol(&self) -> (r: &'static str)
        ensures
            r@ == operation_text(*self),
    {
        proof {
            reveal_strlit("|");
            reveal_strlit("");
        }
        match self {
            Operation::Or => "|",
            Operation::And => "",
        }
    }
}

impl UnaryOp {
    /// The symbol of the operator.
    pub fn symbol(&self) -> (r: &'static str)
        ensures
            r@ == unary_text(*self),
    {
        proof {
            reveal_strlit("*");
            reveal_strlit("+");
        }
        match self {
            UnaryOp::Kleene => "*",
            UnaryOp::Plus => "+",
        }
    }
}

fn trim_str(input: &str) -> (r: &str)
    ensures
        r@ == trimmed(input@),
{
    let n = input.unicode_len();
    if n < 2 {
        proof {
            reveal_strlit("");
        }
        ""
    } else {
        input.substring_char(1, n - 1)
    }
}

/// The walk's line for a binary operation.
fn binary_line(left: &Expr, op: &Operation, right: &Expr) -> (r: String)
    ensures
        r@ == text_of(*left) + seq![' '] + operation_text(*op) + seq![' '] + text_of(*right),
{
    proof {
        reveal_strlit(" ");
    }
    let mut line = String::new();
    left.write_to(&mut line);
    line.append(" ");
    line.append(op.symbol());
    line.append(" ");
    right.write_to(&mut line);
    assert(line@ =~= text_of(*left) + seq![' '] + operation_text(*op) + seq![' '] + text_of(*right));
    line
}

/// The walk's line for a unary operation.
fn unary_line(operand: &Expr, op: &UnaryOp) -> (r: String)
    ensures
        r@ == unary_text(*op) + text_of(*operand),
{
    let mut line = String::new();
    line.append(op.symbol());
    operand.write_to(&mut line);
    assert(line@ =~= unary_text(*op) + text_of(*operand));
    line
}

impl Expr {
    /// Appends the text of the expression to `out`.
    fn write_to(&self, out: &mut String)
        ensures
            final(out)@ == old(out)@ + text_of(*self),
        decreases self,
    {
        proof {
            reveal_strlit("(");
            reveal_strlit(")");
        }
        match self {
            Expr::Char(c) => {
                push_char(out, *c);
            },
            Expr::BinaryOp { left, op, right } => {
                out.append("(");
                left.write_to(out);
                out.append(op.symbol());
                right.write_to(out);
                out.append(")");
            },
            Expr::UnaryOp { operand, op } => {
                out.append("(");
                out.append(op.symbol());
                operand.write_to(out);
                out.append(")");
            },
        }
        assert(out@ =~= old(out)@ + text_of(*self));
    }

    /// The fully parenthesised text of the expression.
    pub fn to_string(&self) -> (r: String)
        ensures
            r@ == text_of(*self),
    {
        let mut out = String::new();
        self.write_to(&mut out);
        assert(out@ =~= text_of(*self));
        out
    }

    /// The text of the expression without its outermost parentheses (without
    /// its first and last characters).
    pub fn trim(&self) -> (r: String)
        ensures
            r@ == trimmed(text_of(*self)),
    {
        let s = self.to_string();
        String::from_str(trim_str(s.as_str()))
    }

    /// Appends the lines of a pre-order walk of the expression to `out`.
    #[verifier::rlimit(50)]
    fn walk_into(&self, out: &mut Vec<String>)
        ensures
            final(out)@.len() == old(out)@.len() + walk_lines(*self).len(),
            forall|i: int| 0 <= i < old(out)@.len() ==> final(out)@[i] == old(out)@[i],
            forall|i: int|
                0 <= i < walk_lines(*self).len() ==> final(out)@[old(out)@.len() + i]@
                    == walk_lines(*self)[i],
        decreases self,
    {
        let ghost before = out@;
        match self {
            Expr::Char(c) => {
                let mut line = String::new();
                push_char(&mut line, *c);
                assert(line@ =~= seq![*c]);
                out.push(line);
            },
            Expr::BinaryOp { left, op, right } => {
                out.push(binary_line(left, op, right));
                let ghost mid1 = out@;
                left.walk_into(out);
                let ghost mid2 = out@;
                right.walk_into(out);
                let ghost wl = walk_lines(*self);
                let ghost ll = walk_lines(**left);
                let ghost rl = walk_lines(**right);
                assert(wl =~= seq![wl[0]] + ll + rl);
                assert forall|i: int| 0 <= i < wl.len() implies out@[before.len() + i]@ == wl[i] by {
                    if i == 0 {
                        assert(out@[before.len() + i] == mid2[before.len() + i]);
                        assert(mid2[before.len() + i] == mid1[before.len() + i]);
                    } else if i < 1 + ll.len() {
                        assert(out@[before.len() + i] == mid2[before.len() + i]);
                        assert(mid2[mid1.len() + (i - 1)]@ == ll[i - 1]);
                    } else {
                        assert(out@[mid2.len() + (i - 1 - ll.len())]@ == rl[i - 1 - ll.len()]);
                    }
                }
            },
            Expr::UnaryOp { operand, op } => {
                out.push(unary_line(operand, op));
                let ghost mid1 = out@;
                operand.walk_into(out);
                let ghost wl = walk_lines(*self);
                let ghost ol = walk_lines(**operand);
                assert(wl =~= seq![wl[0]] + ol);
                assert forall|i: int| 0 <= i < wl.len() implies out@[before.len() + i]@ == wl[i] by {
                    if i == 0 {
                        assert(out@[before.len() + i] == mid1[before.len() + i]);
                    } else {
                        assert(out@[mid1.len() + (i - 1)]@ == ol[i - 1]);
                    }
                }
            },
        }
    }

    /// The lines of a depth-first pre-order walk, one per node: the node's
    /// text, a binary operation written as `left op right` with spaces, a
    /// unary one as its operator followed by its operand. A visitor is called
    /// once per line.
    pub fn walk_plan(&self) -> (r: Vec<String>)
        ensures
            r@.len() == walk_lines(*self).len(),
            forall|i: int| 0 <= i < r@.len() ==> r@[i]@ == walk_lines(*self)[i],
    {
        let mut out: Vec<String> = Vec::new();
        self.walk_into(&mut out);
        out
    }
}

/// The lines of a depth-first pre-order walk of `e`, one per node.
pub open spec fn walk_lines(e: Expr) -> Seq<Seq<char>>
    decreases e,
{
    match e {
        Expr::Char(c) => seq![seq![c]],
        Expr::BinaryOp { left, op, right } => seq![
            text_of(*left) + seq![' '] + operation_text(op) + seq![' '] + text_of(*right),
        ] + walk_lines(*left) + walk_lines(*right),
        Expr::UnaryOp { operand, op } => seq![unary_text(op) + text_of(*operand)] + walk_lines(
            *operand,
        ),
    }
}

} // verus!
