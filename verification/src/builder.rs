//! A fluent builder for constructing dice-expression trees in code.
//!
//! The builder produces the same [`Node`] that parsing yields, but with
//! caller-defined tags. Callers compose expressions through the combinators on
//! [`Roll`] and finish with [`Roll::build`].
//!
//! Apply dice operations *before* tagging a sub-expression: operations attach
//! to a bare dice/set node, whereas a tag wraps the whole thing.
use vstd::prelude::*;

use crate::ast::{
    Annotation, BinaryOperator, DiceSize, Node, Selector, SelectorKind, SetOperation, SetOperator,
    UnaryOperator,
};
use crate::number::{binary64_of_nat, Number};

verus! {

/// A comparison used by selector-based dice operations such as
/// [`Roll::reroll`], [`Roll::explode`], [`Roll::keep_where`], and
/// [`Roll::drop_where`].
#[derive(Debug, Clone, Copy, PartialEq, Eq, Hash, Structural)]
pub enum Compare {
    /// Greater than (`>`).
    Gt,
    /// Greater than or equal (`>=`).
    Ge,
    /// Less than (`<`).
    Lt,
    /// Less than or equal (`<=`).
    Le,
    /// Equal (`==`).
    Eq,
    /// Not equal (`!=`).
    Ne,
}

/// The selector kind that a comparison stands for.
pub open spec fn compare_kind(c: Compare) -> SelectorKind {
    match c {
        Compare::Gt => SelectorKind::GreaterThan,
        Compare::Ge => SelectorKind::GreaterThanOrEqual,
        Compare::Lt => SelectorKind::LessThan,
        Compare::Le => SelectorKind::LessThanOrEqual,
        Compare::Eq => SelectorKind::EqualTo,
        Compare::Ne => SelectorKind::NotEqual,
    }
}

impl Compare {
    fn kind(self) -> (k: SelectorKind)
        ensures
            k == compare_kind(self),
    {
        match self {
            Compare::Gt => SelectorKind::GreaterThan,
            Compare::Ge => SelectorKind::GreaterThanOrEqual,
            Compare::Lt => SelectorKind::LessThan,
            Compare::Le => SelectorKind::LessThanOrEqual,
            Compare::Eq => SelectorKind::EqualTo,
            Compare::Ne => SelectorKind::NotEqual,
        }
    }
}

/// `op` applies `operator` through one selector of `kind` whose target is the
/// literal `value`.
pub open spec fn single_selector<T>(
    op: SetOperation<T>,
    operator: SetOperator,
    kind: SelectorKind,
    value: Number,
) -> bool {
    &&& op.operator == operator
    &&& op.selectors@.len() == 1
    &&& op.selectors@[0].kind == kind
    &&& *op.selectors@[0].target == Node::<T>::Literal(value)
}

/// `new_ops` is `old_ops` followed by one operation with a single selector.
pub open spec fn ops_extended<T>(
    old_ops: Seq<SetOperation<T>>,
    new_ops: Seq<SetOperation<T>>,
    operator: SetOperator,
    kind: SelectorKind,
    value: Number,
) -> bool {
    &&& new_ops.len() == old_ops.len() + 1
    &&& new_ops.take(old_ops.len() as int) == old_ops
    &&& single_selector(new_ops.last(), operator, kind, value)
}

/// `after` is `before` with one single-selector operation attached: appended
/// to the operations of a dice-with-operations or set node, or wrapping any
/// other node in a new dice-with-operations node.
pub open spec fn operation_attached<T>(
    before: Node<T>,
    after: Node<T>,
    operator: SetOperator,
    kind: SelectorKind,
    value: Number,
) -> bool {
    match before {
        Node::DiceWithOps { dice, operations } => match after {
            Node::DiceWithOps { dice: d2, operations: o2 } => d2 == dice && ops_extended(
                operations@,
                o2@,
                operator,
                kind,
                value,
            ),
            _ => false,
        },
        Node::SetLiteral { elements, operations } => match after {
            Node::SetLiteral { elements: e2, operations: o2 } => e2 == elements && ops_extended(
                operations@,
                o2@,
                operator,
                kind,
                value,
            ),
            _ => false,
        },
        _ => match after {
            Node::DiceWithOps { dice: d2, operations: o2 } => *d2 == before && ops_extended(
                Seq::empty(),
                o2@,
                operator,
                kind,
                value,
            ),
            _ => false,
        },
    }
}

/// The annotations `new_anns` are `old_anns` followed by one annotation for
/// each tag of `tags`, in order.
pub open spec fn annotations_extended<T>(
    old_anns: Seq<Annotation<T>>,
    new_anns: Seq<Annotation<T>>,
    tags: Seq<T>,
) -> bool {
    &&& new_anns.len() == old_anns.len() + tags.len()
    &&& new_anns.take(old_anns.len() as int) == old_anns
    &&& forall|i: int| 0 <= i < tags.len() ==> #[trigger] new_anns[old_anns.len() + i].tag == tags[i]
}

/// `after` is `before` with `tags` attached: unchanged when there are none,
/// appended to the annotations of an annotated node, or wrapping any other
/// node in a new annotated node.
pub open spec fn tags_attached<T>(before: Node<T>, after: Node<T>, tags: Seq<T>) -> bool {
    if tags.len() == 0 {
        after == before
    } else {
        match before {
            Node::Annotated { expr, annotations } => match after {
                Node::Annotated { expr: x2, annotations: a2 } => x2 == expr
                    && annotations_extended(annotations@, a2@, tags),
                _ => false,
            },
            _ => match after {
                Node::Annotated { expr: x2, annotations: a2 } => *x2 == before
                    && annotations_extended(Seq::empty(), a2@, tags),
                _ => false,
            },
        }
    }
}

/// `n` dice of `faces` sides: `Some(n)` as the count, or a single die for
/// `None`.
pub open spec fn dice_node<T>(count: Option<u32>, faces: u32) -> Node<T> {
    Node::Dice {
        num: match count {
            Some(n) => Some(Box::new(Node::Literal(Number { bits: binary64_of_nat(n as nat) as u64 }))),
            None => None,
        },
        size: DiceSize::Value(
            Box::new(Node::Literal(Number { bits: binary64_of_nat(faces as nat) as u64 })),
        ),
    }
}

/// An expression under construction.
///
/// Build one with a constructor ([`lit`], [`dice`], [`die`], [`d_percent`],
/// [`set`]), chain combinators, then call [`Roll::build`] to obtain the
/// [`Node`].
#[must_use]
pub struct Roll<T> {
    node: Node<T>,
}

impl<T> View for Roll<T> {
    type V = Node<T>;

    closed spec fn view(&self) -> Node<T> {
        self.node
    }
}

impl<T> Roll<T> {
    fn wrap(node: Node<T>) -> (r: Roll<T>)
        ensures
            r@ == node,
    {
        Roll { node }
    }

    /// Finishes building and hands back the expression tree.
    pub fn build(self) -> (n: Node<T>)
        ensures
            n == self@,
    {
        self.node
    }

    fn binary(self, operator: BinaryOperator, rhs: Roll<T>) -> (r: Roll<T>)
        ensures
            r@ == (Node::Binary { operator, left: Box::new(self@), right: Box::new(rhs@) }),
    {
        Roll::wrap(Node::Binary { operator, left: Box::new(self.node), right: Box::new(rhs.node) })
    }

    fn unary(self, operator: UnaryOperator) -> (r: Roll<T>)
        ensures
            r@ == (Node::Unary { operator, operand: Box::new(self@) }),
    {
        Roll::wrap(Node::Unary { operator, operand: Box::new(self.node) })
    }

    fn operation(self, operator: SetOperator, kind: SelectorKind, value: Number) -> (r: Roll<T>)
        ensures
            operation_attached(self@, r@, operator, kind, value),
    {
        let op = SetOperation {
            operator,
            selectors: vec![Selector { kind, target: Box::new(Node::Literal(value)) }],
        };
        assert(single_selector(op, operator, kind, value));
        Roll::wrap(attach_operation(self.node, op))
    }

    /// Add another expression (`self + rhs`).
    pub fn add(self, rhs: Roll<T>) -> (r: Roll<T>)
        ensures
            r@ == (Node::Binary { operator: BinaryOperator::Add, left: Box::new(self@), right: Box::new(rhs@) }),
    {
        self.binary(BinaryOperator::Add, rhs)
    }

    /// Subtract another expression (`self - rhs`).
    pub fn sub(self, rhs: Roll<T>) -> (r: Roll<T>)
        ensures
            r@ == (Node::Binary { operator: BinaryOperator::Subtract, left: Box::new(self@), right: Box::new(rhs@) }),
    {
        self.binary(BinaryOperator::Subtract, rhs)
    }

    /// Multiply by another expression (`self * rhs`).
    pub fn mul(self, rhs: Roll<T>) -> (r: Roll<T>)
        ensures
            r@ == (Node::Binary { operator: BinaryOperator::Multiply, left: Box::new(self@), right: Box::new(rhs@) }),
    {
        self.binary(BinaryOperator::Multiply, rhs)
    }

    /// Divide by another expression (`self / rhs`).
    pub fn div(self, rhs: Roll<T>) -> (r: Roll<T>)
        ensures
            r@ == (Node::Binary { operator: BinaryOperator::Divide, left: Box::new(self@), right: Box::new(rhs@) }),
    {
        self.binary(BinaryOperator::Divide, rhs)
    }

    /// Integer (truncating) division (`self // rhs`).
    pub fn int_div(self, rhs: Roll<T>) -> (r: Roll<T>)
        ensures
            r@ == (Node::Binary { operator: BinaryOperator::IntDivide, left: Box::new(self@), right: Box::new(rhs@) }),
    {
        self.binary(BinaryOperator::IntDivide, rhs)
    }

    /// Remainder (`self % rhs`).
    pub fn rem(self, rhs: Roll<T>) -> (r: Roll<T>)
        ensures
            r@ == (Node::Binary { operator: BinaryOperator::Modulo, left: Box::new(self@), right: Box::new(rhs@) }),
    {
        self.binary(BinaryOperator::Modulo, rhs)
    }

    /// Equality comparison (`self == rhs`), yielding `1.0`/`0.0`.
    pub fn eq(self, rhs: Roll<T>) -> (r: Roll<T>)
        ensures
            r@ == (Node::Binary { operator: BinaryOperator::Equal, left: Box::new(self@), right: Box::new(rhs@) }),
    {
        self.binary(BinaryOperator::Equal, rhs)
    }

    /// Inequality comparison (`self != rhs`).
    pub fn ne(self, rhs: Roll<T>) -> (r: Roll<T>)
        ensures
            r@ == (Node::Binary { operator: BinaryOperator::NotEqual, left: Box::new(self@), right: Box::new(rhs@) }),
    {
        self.binary(BinaryOperator::NotEqual, rhs)
    }

    /// Greater-than comparison (`self > rhs`).
    pub fn gt(self, rhs: Roll<T>) -> (r: Roll<T>)
        ensures
            r@ == (Node::Binary { operator: BinaryOperator::Greater, left: Box::new(self@), right: Box::new(rhs@) }),
    {
        self.binary(BinaryOperator::Greater, rhs)
    }

    /// Greater-or-equal comparison (`self >= rhs`).
    pub fn ge(self, rhs: Roll<T>) -> (r: Roll<T>)
        ensures
            r@ == (Node::Binary { operator: BinaryOperator::GreaterEqual, left: Box::new(self@), right: Box::new(rhs@) }),
    {
        self.binary(BinaryOperator::GreaterEqual, rhs)
    }

    /// Less-than comparison (`self < rhs`).
    pub fn lt(self, rhs: Roll<T>) -> (r: Roll<T>)
        ensures
            r@ == (Node::Binary { operator: BinaryOperator::Less, left: Box::new(self@), right: Box::new(rhs@) }),
    {
        self.binary(BinaryOperator::Less, rhs)
    }

    /// Less-or-equal comparison (`self <= rhs`).
    pub fn le(self, rhs: Roll<T>) -> (r: Roll<T>)
        ensures
            r@ == (Node::Binary { operator: BinaryOperator::LessEqual, left: Box::new(self@), right: Box::new(rhs@) }),
    {
        self.binary(BinaryOperator::LessEqual, rhs)
    }

    /// Unary negation (`-self`).
    pub fn neg(self) -> (r: Roll<T>)
        ensures
            r@ == (Node::Unary { operator: UnaryOperator::Minus, operand: Box::new(self@) }),
    {
        self.unary(UnaryOperator::Minus)
    }

    /// Unary plus (`+self`).
    pub fn pos(self) -> (r: Roll<T>)
        ensures
            r@ == (Node::Unary { operator: UnaryOperator::Plus, operand: Box::new(self@) }),
    {
        self.unary(UnaryOperator::Plus)
    }

    /// Keep the `n` highest dice (`kh{n}`).
    pub fn keep_highest(self, n: u32) -> (r: Roll<T>)
        ensures
            operation_attached(
                self@,
                r@,
                SetOperator::Keep,
                SelectorKind::Highest,
                Number { bits: binary64_of_nat(n as nat) as u64 },
            ),
    {
        let value = Number::from_u32(n);
        self.operation(SetOperator::Keep, SelectorKind::Highest, value)
    }

    /// Keep the `n` lowest dice (`kl{n}`).
    pub fn keep_lowest(self, n: u32) -> (r: Roll<T>)
        ensures
            operation_attached(
                self@,
                r@,
                SetOperator::Keep,
                SelectorKind::Lowest,
                Number { bits: binary64_of_nat(n as nat) as u64 },
            ),
    {
        let value = Number::from_u32(n);
        self.operation(SetOperator::Keep, SelectorKind::Lowest, value)
    }

    /// Drop the `n` highest dice (`ph{n}`).
    pub fn drop_highest(self, n: u32) -> (r: Roll<T>)
        ensures
            operation_attached(
                self@,
                r@,
                SetOperator::Drop,
                SelectorKind::Highest,
                Number { bits: binary64_of_nat(n as nat) as u64 },
            ),
    {
        let value = Number::from_u32(n);
        self.operation(SetOperator::Drop, SelectorKind::Highest, value)
    }

    /// Drop the `n` lowest dice (`pl{n}`).
    pub fn drop_lowest(self, n: u32) -> (r: Roll<T>)
        ensures
            operation_attached(
                self@,
                r@,
                SetOperator::Drop,
                SelectorKind::Lowest,
                Number { bits: binary64_of_nat(n as nat) as u64 },
            ),
    {
        let value = Number::from_u32(n);
        self.operation(SetOperator::Drop, SelectorKind::Lowest, value)
    }

    /// Keep dice matching `cmp value` (e.g. `k>4`).
    pub fn keep_where(self, cmp: Compare, value: Number) -> (r: Roll<T>)
        ensures
            operation_attached(self@, r@, SetOperator::Keep, compare_kind(cmp), value),
    {
        let kind = cmp.kind();
        self.operation(SetOperator::Keep, kind, value)
    }

    /// Drop dice matching `cmp value` (e.g. `p<2`).
    pub fn drop_where(self, cmp: Compare, value: Number) -> (r: Roll<T>)
        ensures
            operation_attached(self@, r@, SetOperator::Drop, compare_kind(cmp), value),
    {
        let kind = cmp.kind();
        self.operation(SetOperator::Drop, kind, value)
    }

    /// Reroll matching dice until none match (`rr`).
    pub fn reroll(self, cmp: Compare, value: Number) -> (r: Roll<T>)
        ensures
            operation_attached(self@, r@, SetOperator::Reroll, compare_kind(cmp), value),
    {
        let kind = cmp.kind();
        self.operation(SetOperator::Reroll, kind, value)
    }

    /// Reroll matching dice once (`ro`).
    pub fn reroll_once(self, cmp: Compare, value: Number) -> (r: Roll<T>)
        ensures
            operation_attached(self@, r@, SetOperator::RerollOnce, compare_kind(cmp), value),
    {
        let kind = cmp.kind();
        self.operation(SetOperator::RerollOnce, kind, value)
    }

    /// Reroll matching dice, keeping the original and adding the new die (`ra`).
    pub fn reroll_add(self, cmp: Compare, value: Number) -> (r: Roll<T>)
        ensures
            operation_attached(self@, r@, SetOperator::RerollAdd, compare_kind(cmp), value),
    {
        let kind = cmp.kind();
        self.operation(SetOperator::RerollAdd, kind, value)
    }

    /// Explode matching dice, rolling an extra die for each match (`e`/`!`).
    pub fn explode(self, cmp: Compare, value: Number) -> (r: Roll<T>)
        ensures
            operation_attached(self@, r@, SetOperator::Explode, compare_kind(cmp), value),
    {
        let kind = cmp.kind();
        self.operation(SetOperator::Explode, kind, value)
    }

    /// Clamp each die up to at least `value` (`mi{value}`).
    pub fn min(self, value: Number) -> (r: Roll<T>)
        ensures
            operation_attached(self@, r@, SetOperator::Minimum, SelectorKind::Literal, value),
    {
        self.operation(SetOperator::Minimum, SelectorKind::Literal, value)
    }

    /// Clamp each die down to at most `value` (`ma{value}`).
    pub fn max(self, value: Number) -> (r: Roll<T>)
        ensures
            operation_attached(self@, r@, SetOperator::Maximum, SelectorKind::Literal, value),
    {
        self.operation(SetOperator::Maximum, SelectorKind::Literal, value)
    }

    /// Attaches a single tag to this expression.
    pub fn tag(self, tag: T) -> (r: Roll<T>)
        ensures
            tags_attached(self@, r@, seq![tag]),
    {
        let tags = vec![tag];
        proof {
            assert(tags@ =~= seq![tag]);
        }
        self.tags(tags)
    }

    /// Attaches the tags `tags`, in order, to this expression.
    pub fn tags(self, tags: Vec<T>) -> (r: Roll<T>)
        ensures
            tags_attached(self@, r@, tags@),
    {
        let ghost orig = tags@;
        let mut rest = tags;
        let mut annotations: Vec<Annotation<T>> = Vec::new();
        while rest.len() > 0
            invariant
                annotations@.len() + rest@.len() == orig.len(),
                rest@ == orig.skip(annotations@.len() as int),
                forall|i: int| 0 <= i < annotations@.len() ==> #[trigger] annotations@[i].tag == orig[i],
            decreases rest@.len(),
        {
            let tag = rest.remove(0);
            annotations.push(Annotation { tag });
            assert(rest@ =~= orig.skip(annotations@.len() as int));
        }
        Roll::wrap(attach_tags(self.node, annotations))
    }

    /// A numeric literal.
    pub fn lit(value: Number) -> (r: Roll<T>)
        ensures
            r@ == Node::<T>::Literal(value),
    {
        lit(value)
    }

    /// `count` dice of `faces` sides (e.g. `Roll::dice(4, 6)` is `4d6`).
    pub fn dice(count: u32, faces: u32) -> (r: Roll<T>)
        ensures
            r@ == dice_node::<T>(Some(count), faces),
    {
        dice(count, faces)
    }

    /// A single die of `faces` sides (e.g. `Roll::die(20)` is `d20`).
    pub fn die(faces: u32) -> (r: Roll<T>)
        ensures
            r@ == dice_node::<T>(None, faces),
    {
        die(faces)
    }

    /// A percentile die (`d%`).
    pub fn d_percent() -> (r: Roll<T>)
        ensures
            r@ == (Node::<T>::Dice { num: None, size: DiceSize::Percent }),
    {
        d_percent()
    }
}

/// Attaches `op` to `node`: appended to the operations of a dice-with-ops or
/// set node; any other node is wrapped in a new dice-with-ops node, whose
/// evaluation then reports that it does not hold dice.
fn attach_operation<T>(node: Node<T>, op: SetOperation<T>) -> (r: Node<T>)
    requires
        op.selectors@.len() == 1,
    ensures
        forall|operator: SetOperator, kind: SelectorKind, value: Number|
            single_selector(op, operator, kind, value) ==> operation_attached(
                node,
                r,
                operator,
                kind,
                value,
            ),
{
    let ghost old_node = node;
    let ghost old_op = op;
    match node {
        Node::Dice { num, size } => {
            let ops = vec![op];
            assert(ops@.take(0) =~= Seq::<SetOperation<T>>::empty());
            Node::DiceWithOps { dice: Box::new(Node::Dice { num, size }), operations: ops }
        },
        Node::DiceWithOps { dice, operations } => {
            let mut operations = operations;
            let ghost before = operations@;
            operations.push(op);
            assert(operations@.take(before.len() as int) =~= before);
            Node::DiceWithOps { dice, operations }
        },
        Node::SetLiteral { elements, operations } => {
            let mut operations = operations;
            let ghost before = operations@;
            operations.push(op);
            assert(operations@.take(before.len() as int) =~= before);
            Node::SetLiteral { elements, operations }
        },
        other => {
            let ops = vec![op];
            assert(ops@.take(0) =~= Seq::<SetOperation<T>>::empty());
            Node::DiceWithOps { dice: Box::new(other), operations: ops }
        },
    }
}

/// Attaches the annotations `tags` to `node`.
fn attach_tags<T>(node: Node<T>, tags: Vec<Annotation<T>>) -> (r: Node<T>)
    ensures
        forall|ts: Seq<T>|
            ts.len() == tags@.len() && (forall|i: int| 0 <= i < ts.len() ==> #[trigger] ts[i] == tags@[i].tag)
                ==> tags_attached(node, r, ts),
{
    if tags.len() == 0 {
        return node;
    }
    match node {
        Node::Annotated { expr, annotations } => {
            let mut annotations = annotations;
            let ghost before = annotations@;
            let ghost orig = tags@;
            let mut rest = tags;
            let mut added: usize = 0;
            let total = rest.len();
            while rest.len() > 0
                invariant
                    total == orig.len(),
                    added + rest@.len() == orig.len(),
                    annotations@.len() == before.len() + added,
                    rest@ == orig.skip(added as int),
                    annotations@.take(before.len() as int) == before,
                    forall|i: int| 0 <= i < added ==> #[trigger] annotations@[before.len() + i] == orig[i],
                decreases rest@.len(),
            {
                let a = rest.remove(0);
                assert(a == orig[added as int]);
                annotations.push(a);
                added = added + 1;
                assert(annotations@.take(before.len() as int) =~= before);
                assert(rest@ =~= orig.skip(added as int));
            }
            Node::Annotated { expr, annotations }
        },
        other => {
            proof {
                assert(tags@.take(0) =~= Seq::<Annotation<T>>::empty());
            }
            Node::Annotated { expr: Box::new(other), annotations: tags }
        },
    }
}

/// A numeric literal.
pub fn lit<T>(value: Number) -> (r: Roll<T>)
    ensures
        r@ == Node::<T>::Literal(value),
{
    Roll::wrap(Node::Literal(value))
}

/// `count` dice of `faces` sides (e.g. `dice(4, 6)` is `4d6`).
pub fn dice<T>(count: u32, faces: u32) -> (r: Roll<T>)
    ensures
        r@ == dice_node::<T>(Some(count), faces),
{
    let num = Number::from_u32(count);
    let size = Number::from_u32(faces);
    Roll::wrap(
        Node::Dice {
            num: Some(Box::new(Node::Literal(num))),
            size: DiceSize::Value(Box::new(Node::Literal(size))),
        },
    )
}

/// A single die of `faces` sides (e.g. `die(20)` is `d20`).
pub fn die<T>(faces: u32) -> (r: Roll<T>)
    ensures
        r@ == dice_node::<T>(None, faces),
{
    let size = Number::from_u32(faces);
    Roll::wrap(Node::Dice { num: None, size: DiceSize::Value(Box::new(Node::Literal(size))) })
}

/// A percentile die (`d%`).
pub fn d_percent<T>() -> (r: Roll<T>)
    ensures
        r@ == (Node::<T>::Dice { num: None, size: DiceSize::Percent }),
{
    Roll::wrap(Node::Dice { num: None, size: DiceSize::Percent })
}

/// A set literal of the given elements (e.g. `{a, b, c}`), with no
/// operations.
pub fn set<T>(elements: Vec<Roll<T>>) -> (r: Roll<T>)
    ensures
        (r@ matches Node::SetLiteral { elements: es, operations: ops } && ops@.len() == 0
            && es@.len() == elements@.len() && forall|i: int|
            0 <= i < elements@.len() ==> #[trigger] es@[i] == elements@[i]@),
{
    let ghost orig = elements@;
    let mut rest = elements;
    let mut nodes: Vec<Node<T>> = Vec::new();
    while rest.len() > 0
        invariant
            nodes@.len() + rest@.len() == orig.len(),
            rest@ == orig.skip(nodes@.len() as int),
            forall|i: int| 0 <= i < nodes@.len() ==> #[trigger] nodes@[i] == orig[i]@,
        decreases rest@.len(),
    {
        let r = rest.remove(0);
        nodes.push(r.build());
        assert(rest@ =~= orig.skip(nodes@.len() as int));
    }
    Roll::wrap(Node::SetLiteral { elements: nodes, operations: Vec::new() })
}

} // verus!
