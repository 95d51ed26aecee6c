//! The abstract syntax tree of dice expressions.
use vstd::prelude::*;

use crate::number::Number;

verus! {

/// A node in the abstract syntax tree of a dice expression.
///
/// The type parameter `T` is the *tag* attached to [`Node::Annotated`]
/// wrappers; [`Node::map_tags`] changes it.
#[derive(Debug, PartialEq)]
pub enum Node<T> {
    /// A numeric literal.
    Literal(Number),
    /// A unary operation such as negation.
    Unary {
        /// The unary operator applied to `operand`.
        operator: UnaryOperator,
        /// The expression the operator is applied to.
        operand: Box<Node<T>>,
    },
    /// A binary arithmetic operation (addition, multiplication, etc.).
    Binary {
        /// The binary operator combining `left` and `right`.
        operator: BinaryOperator,
        /// The left-hand operand.
        left: Box<Node<T>>,
        /// The right-hand operand.
        right: Box<Node<T>>,
    },
    /// A dice roll expression, e.g. `4d6` or `d%`.
    Dice {
        /// The number of dice to roll; `None` means a single die.
        num: Option<Box<Node<T>>>,
        /// The size (number of faces) of each die.
        size: DiceSize<T>,
    },
    /// A set literal (with optional set-style operations).
    SetLiteral {
        /// The expressions that make up the set.
        elements: Vec<Node<T>>,
        /// Keep/drop operations applied to the set.
        operations: Vec<SetOperation<T>>,
    },
    /// A dice expression with additional keep/drop/reroll/etc. operations.
    DiceWithOps {
        /// The underlying [`Node::Dice`] expression.
        dice: Box<Node<T>>,
        /// The operations applied to the dice pool, in order.
        operations: Vec<SetOperation<T>>,
    },
    /// An annotated expression, e.g. `4d6 [strength]`.
    Annotated {
        /// The expression being annotated.
        expr: Box<Node<T>>,
        /// The tags attached to `expr`.
        annotations: Vec<Annotation<T>>,
    },
}

/// The size of a die (e.g. 6 for d6 or percent for d%).
#[derive(Debug, PartialEq)]
pub enum DiceSize<T> {
    /// A fixed number of faces, given by an expression (e.g. the `6` in `d6`).
    Value(Box<Node<T>>),
    /// A percentile die (`d%`), rolling multiples of ten from 0 to 90.
    Percent,
}

/// Unary operators supported by the language.
#[derive(Debug, Clone, Copy, PartialEq, Eq, Hash, Structural)]
pub enum UnaryOperator {
    /// Unary plus (`+x`), a no-op that returns its operand unchanged.
    Plus,
    /// Unary negation (`-x`).
    Minus,
}

/// Binary operators supported by the language.
#[derive(Debug, Clone, Copy, PartialEq, Eq, Hash, Structural)]
#[non_exhaustive]
pub enum BinaryOperator {
    /// Addition (`+`).
    Add,
    /// Subtraction (`-`).
    Subtract,
    /// Multiplication (`*`).
    Multiply,
    /// Floating-point division (`/`).
    Divide,
    /// Truncating integer division (`//`).
    IntDivide,
    /// Remainder (`%`).
    Modulo,
    /// Equality comparison (`==`), yielding `1.0` or `0.0`.
    Equal,
    /// Inequality comparison (`!=`).
    NotEqual,
    /// Greater-than comparison (`>`).
    Greater,
    /// Greater-than-or-equal comparison (`>=`).
    GreaterEqual,
    /// Less-than comparison (`<`).
    Less,
    /// Less-than-or-equal comparison (`<=`).
    LessEqual,
}

/// A selector targets a subset of a dice pool (e.g. highest, lowest).
#[derive(Debug, PartialEq)]
pub struct Selector<T> {
    /// How the targeted subset is chosen.
    pub kind: SelectorKind,
    /// The expression supplying the selector's argument (e.g. the count or
    /// threshold).
    pub target: Box<Node<T>>,
}

/// The kind of subset a [`Selector`] picks out of a dice pool.
#[derive(Debug, Clone, Copy, PartialEq, Eq, Hash, Structural)]
#[non_exhaustive]
pub enum SelectorKind {
    /// Dice whose value equals the literal target.
    Literal,
    /// The highest *n* dice, where *n* is the target.
    Highest,
    /// The lowest *n* dice, where *n* is the target.
    Lowest,
    /// Dice strictly greater than the target.
    GreaterThan,
    /// Dice greater than or equal to the target.
    GreaterThanOrEqual,
    /// Dice strictly less than the target.
    LessThan,
    /// Dice less than or equal to the target.
    LessThanOrEqual,
    /// Dice equal to the target.
    EqualTo,
    /// Dice not equal to the target.
    NotEqual,
}

/// The different set operations that can be applied to a dice pool.
#[derive(Debug, Clone, Copy, PartialEq, Eq, Hash, Structural)]
#[non_exhaustive]
pub enum SetOperator {
    /// Keep only the selected dice.
    Keep,
    /// Drop the selected dice.
    Drop,
    /// Reroll selected dice until none match.
    Reroll,
    /// Reroll selected dice exactly once.
    RerollOnce,
    /// Reroll selected dice, keeping the original and adding the new die.
    RerollAdd,
    /// Explode selected dice, rolling an additional die for each match.
    Explode,
    /// Exploding where additional rolls are summed into the original die.
    ExplodeCompound,
    /// Exploding where each additional die is penalised by one.
    ExplodePenetrate,
    /// Penetrating dice (each extra die is reduced by one).
    Penetrate,
    /// Clamp selected dice up to a minimum value.
    Minimum,
    /// Clamp selected dice down to a maximum value.
    Maximum,
    /// Count the selected dice as successes.
    CountSuccess,
    /// Count the selected dice as failures.
    CountFailure,
}

/// A modifier applied to a dice set, potentially using a selector.
#[derive(Debug, PartialEq)]
pub struct SetOperation<T> {
    /// The operation to apply.
    pub operator: SetOperator,
    /// The selectors describing which dice the operation targets.
    pub selectors: Vec<Selector<T>>,
}

/// An annotation applied to a node, carrying a caller-defined tag.
#[derive(Debug, Clone, PartialEq, Eq, Hash)]
pub struct Annotation<T> {
    /// The caller-defined tag value.
    pub tag: T,
}

/// `b` has the shape of `a`, and each tag of `b` stands in the relation
/// `rel` to the tag of `a` at the same place; nothing else differs.
pub open spec fn same_shape<T, U>(a: Node<T>, b: Node<U>, rel: spec_fn(T, U) -> bool) -> bool
    decreases a,
{
    match a {
        Node::Literal(x) => b == Node::<U>::Literal(x),
        Node::Unary { operator, operand } => match b {
            Node::Unary { operator: op2, operand: operand2 } => operator == op2 && same_shape(
                *operand,
                *operand2,
                rel,
            ),
            _ => false,
        },
        Node::Binary { operator, left, right } => match b {
            Node::Binary { operator: op2, left: l2, right: r2 } => operator == op2 && same_shape(
                *left,
                *l2,
                rel,
            ) && same_shape(*right, *r2, rel),
            _ => false,
        },
        Node::Dice { num, size } => match b {
            Node::Dice { num: num2, size: size2 } => (match num {
                Some(n) => num2 matches Some(n2) && same_shape(*n, *n2, rel),
                None => num2 is None,
            }) && (match size {
                DiceSize::Value(s) => size2 matches DiceSize::Value(s2) && same_shape(*s, *s2, rel),
                DiceSize::Percent => size2 is Percent,
            }),
            _ => false,
        },
        Node::SetLiteral { elements, operations } => match b {
            Node::SetLiteral { elements: e2, operations: o2 } => {
                &&& elements@.len() == e2@.len()
                &&& forall|i: int|
                    0 <= i < elements@.len() ==> same_shape(#[trigger] elements@[i], e2@[i], rel)
                &&& operations_same_shape(operations@, o2@, rel)
            },
            _ => false,
        },
        Node::DiceWithOps { dice, operations } => match b {
            Node::DiceWithOps { dice: d2, operations: o2 } => same_shape(*dice, *d2, rel)
                && operations_same_shape(operations@, o2@, rel),
            _ => false,
        },
        Node::Annotated { expr, annotations } => match b {
            Node::Annotated { expr: x2, annotations: a2 } => {
                &&& same_shape(*expr, *x2, rel)
                &&& annotations_related(annotations@, a2@, rel)
            },
            _ => false,
        },
    }
}

/// The operations `b` are the operations `a` with the same operators and
/// selector kinds, and selector targets of the [`same_shape`].
pub open spec fn operations_same_shape<T, U>(
    a: Seq<SetOperation<T>>,
    b: Seq<SetOperation<U>>,
    rel: spec_fn(T, U) -> bool,
) -> bool
    decreases a,
{
    &&& a.len() == b.len()
    &&& forall|i: int|
        0 <= i < a.len() ==> {
            &&& (#[trigger] a[i]).operator == b[i].operator
            &&& a[i].selectors@.len() == b[i].selectors@.len()
            &&& forall|j: int|
                0 <= j < a[i].selectors@.len() ==> {
                    &&& (#[trigger] a[i].selectors@[j]).kind == b[i].selectors@[j].kind
                    &&& same_shape(*a[i].selectors@[j].target, *b[i].selectors@[j].target, rel)
                }
        }
}

/// The annotations `b` hold, in order, tags related by `rel` to those of `a`.
pub open spec fn annotations_related<T, U>(
    a: Seq<Annotation<T>>,
    b: Seq<Annotation<U>>,
    rel: spec_fn(T, U) -> bool,
) -> bool {
    &&& a.len() == b.len()
    &&& forall|i: int| 0 <= i < a.len() ==> rel(#[trigger] a[i].tag, b[i].tag)
}

/// The relation "`u` is a value that `f` may return for `t`".
pub open spec fn returned_by<T, U, F: Fn(T) -> U>(f: F) -> spec_fn(T, U) -> bool {
    |t: T, u: U| call_ensures(f, (t,), u)
}

/// `b` is `a` with every tag `t` replaced by a value that `f` may return for
/// `t`; nothing else differs.
pub open spec fn retagged<T, U, F: Fn(T) -> U>(a: Node<T>, b: Node<U>, f: F) -> bool {
    same_shape(a, b, returned_by(f))
}

impl<T> Node<T> {
    /// Transforms every tag in the tree, producing a `Node` over a new tag
    /// type.
    ///
    /// Only [`Node::Annotated`] wrappers carry tags; every other node is
    /// rebuilt unchanged with its children mapped, and the tags keep their
    /// order.
    pub fn map_tags<U, F: Fn(T) -> U>(self, f: F) -> (r: Node<U>)
        requires
            forall|t: T| call_requires(f, (t,)),
        ensures
            retagged(self, r, f),
    {
        self.map_tags_inner(&f)
    }

    fn map_tags_inner<U, F: Fn(T) -> U>(self, f: &F) -> (r: Node<U>)
        requires
            forall|t: T| call_requires(*f, (t,)),
        ensures
            retagged(self, r, *f),
        decreases self,
    {
        match self {
            Node::Literal(v) => Node::Literal(v),
            Node::Unary { operator, operand } => {
                let operand = (*operand).map_tags_inner(f);
                Node::Unary { operator, operand: Box::new(operand) }
            },
            Node::Binary { operator, left, right } => {
                let left = (*left).map_tags_inner(f);
                let right = (*right).map_tags_inner(f);
                Node::Binary { operator, left: Box::new(left), right: Box::new(right) }
            },
            Node::Dice { num, size } => {
                let num = match num {
                    Some(n) => Some(Box::new((*n).map_tags_inner(f))),
                    None => None,
                };
                let size = match size {
                    DiceSize::Value(inner) => DiceSize::Value(Box::new((*inner).map_tags_inner(f))),
                    DiceSize::Percent => DiceSize::Percent,
                };
                Node::Dice { num, size }
            },
            Node::SetLiteral { elements, operations } => {
                let elements = map_nodes(elements, f);
                let operations = map_operations(operations, f);
                Node::SetLiteral { elements, operations }
            },
            Node::DiceWithOps { dice, operations } => {
                let dice = (*dice).map_tags_inner(f);
                let operations = map_operations(operations, f);
                Node::DiceWithOps { dice: Box::new(dice), operations }
            },
            Node::Annotated { expr, annotations } => {
                let expr = (*expr).map_tags_inner(f);
                let annotations = map_annotations(annotations, f);
                Node::Annotated { expr: Box::new(expr), annotations }
            },
        }
    }
}

#[verifier::loop_isolation(false)]
fn map_nodes<T, U, F: Fn(T) -> U>(v: Vec<Node<T>>, f: &F) -> (r: Vec<Node<U>>)
    requires
        forall|t: T| call_requires(*f, (t,)),
    ensures
        r@.len() == v@.len(),
        forall|i: int| 0 <= i < v@.len() ==> same_shape(#[trigger] v@[i], r@[i], returned_by(*f)),
    decreases v,
{
    let ghost orig = v@;
    proof {
        assert(decreases_to!(v => v@));
    }
    let mut rest = v;
    let mut out: Vec<Node<U>> = Vec::new();
    while rest.len() > 0
        invariant
            forall|t: T| call_requires(*f, (t,)),
            out@.len() + rest@.len() == orig.len(),
            rest@ == orig.skip(out@.len() as int),
            forall|i: int| 0 <= i < out@.len() ==> same_shape(#[trigger] orig[i], out@[i], returned_by(*f)),
        decreases rest@.len(),
    {
        let ghost k = out@.len() as int;
        let e = rest.remove(0);
        assert(e == orig[k]);
        let m = e.map_tags_inner(f);
        out.push(m);
        assert(rest@ =~= orig.skip(out@.len() as int));
    }
    out
}

#[verifier::loop_isolation(false)]
pub(crate) fn map_operations<T, U, F: Fn(T) -> U>(v: Vec<SetOperation<T>>, f: &F) -> (r: Vec<SetOperation<U>>)
    requires
        forall|t: T| call_requires(*f, (t,)),
    ensures
        operations_same_shape(v@, r@, returned_by(*f)),
    decreases v,
{
    let ghost orig = v@;
    proof {
        assert(decreases_to!(v => v@));
    }
    let mut rest = v;
    let mut out: Vec<SetOperation<U>> = Vec::new();
    while rest.len() > 0
        invariant
            forall|t: T| call_requires(*f, (t,)),
            out@.len() + rest@.len() == orig.len(),
            rest@ == orig.skip(out@.len() as int),
            forall|i: int|
                0 <= i < out@.len() ==> {
                    &&& (#[trigger] orig[i]).operator == out@[i].operator
                    &&& orig[i].selectors@.len() == out@[i].selectors@.len()
                    &&& forall|j: int|
                        0 <= j < orig[i].selectors@.len() ==> {
                            &&& (#[trigger] orig[i].selectors@[j]).kind
                                == out@[i].selectors@[j].kind
                            &&& same_shape(
                                *orig[i].selectors@[j].target,
                                *out@[i].selectors@[j].target,
                                returned_by(*f),
                            )
                        }
                },
        decreases rest@.len(),
    {
        let ghost k = out@.len() as int;
        let op = rest.remove(0);
        assert(op == orig[k]);
        let SetOperation { operator, selectors } = op;
        let ghost sels = selectors@;
        let mut srest = selectors;
        let mut sout: Vec<Selector<U>> = Vec::new();
        while srest.len() > 0
            invariant
                forall|t: T| call_requires(*f, (t,)),
                sels == orig[k].selectors@,
                0 <= k < orig.len(),
                sout@.len() + srest@.len() == sels.len(),
                srest@ == sels.skip(sout@.len() as int),
                forall|j: int|
                    0 <= j < sout@.len() ==> {
                        &&& (#[trigger] sels[j]).kind == sout@[j].kind
                        &&& same_shape(*sels[j].target, *sout@[j].target, returned_by(*f))
                    },
            decreases srest@.len(),
        {
            let ghost j = sout@.len() as int;
            let sel = srest.remove(0);
            assert(sel == sels[j]);
            let Selector { kind, target } = sel;
            proof {
                assert(decreases_to!(orig => orig[k]));
                assert(decreases_to!(orig[k] => orig[k].selectors));
                assert(decreases_to!(orig[k].selectors => sels));
                assert(decreases_to!(sels => sels[j]));
                assert(decreases_to!(sels[j] => sels[j].target));
            }
            let target = (*target).map_tags_inner(f);
            sout.push(Selector { kind, target: Box::new(target) });
            assert(srest@ =~= sels.skip(sout@.len() as int));
        }
        out.push(SetOperation { operator, selectors: sout });
        assert(rest@ =~= orig.skip(out@.len() as int));
    }
    out
}

pub(crate) fn map_annotations<T, U, F: Fn(T) -> U>(v: Vec<Annotation<T>>, f: &F) -> (r: Vec<Annotation<U>>)
    requires
        forall|t: T| call_requires(*f, (t,)),
    ensures
        annotations_related(v@, r@, returned_by(*f)),
{
    let ghost orig = v@;
    let mut rest = v;
    let mut out: Vec<Annotation<U>> = Vec::new();
    while rest.len() > 0
        invariant
            forall|t: T| call_requires(*f, (t,)),
            out@.len() + rest@.len() == orig.len(),
            rest@ == orig.skip(out@.len() as int),
            forall|i: int| 0 <= i < out@.len() ==> call_ensures(*f, (#[trigger] orig[i].tag,), out@[i].tag),
        decreases rest@.len(),
    {
        let ghost k = out@.len() as int;
        let a = rest.remove(0);
        assert(a == orig[k]);
        let tag = f(a.tag);
        out.push(Annotation { tag });
        assert(rest@ =~= orig.skip(out@.len() as int));
    }
    out
}

/// The relation "`b` is a clone of `a`".
pub open spec fn clone_of<T: Clone>() -> spec_fn(T, T) -> bool {
    |a: T, b: T| cloned::<T>(a, b)
}

impl<T: Clone> Node<T> {
    fn clone_node(&self) -> (r: Node<T>)
        ensures
            same_shape(*self, r, clone_of::<T>()),
        decreases self,
    {
        match self {
            Node::Literal(v) => Node::Literal(*v),
            Node::Unary { operator, operand } => {
                let operand = operand.clone_node();
                Node::Unary { operator: *operator, operand: Box::new(operand) }
            },
            Node::Binary { operator, left, right } => {
                let left = left.clone_node();
                let right = right.clone_node();
                Node::Binary { operator: *operator, left: Box::new(left), right: Box::new(right) }
            },
            Node::Dice { num, size } => {
                let num = match num {
                    Some(n) => Some(Box::new(n.clone_node())),
                    None => None,
                };
                let size = match size {
                    DiceSize::Value(inner) => DiceSize::Value(Box::new(inner.clone_node())),
                    DiceSize::Percent => DiceSize::Percent,
                };
                Node::Dice { num, size }
            },
            Node::SetLiteral { elements, operations } => {
                let elements = clone_nodes(elements);
                let operations = clone_operations(operations);
                Node::SetLiteral { elements, operations }
            },
            Node::DiceWithOps { dice, operations } => {
                let dice = dice.clone_node();
                let operations = clone_operations(operations);
                Node::DiceWithOps { dice: Box::new(dice), operations }
            },
            Node::Annotated { expr, annotations } => {
                let expr = expr.clone_node();
                let annotations = clone_annotations(annotations);
                Node::Annotated { expr: Box::new(expr), annotations }
            },
        }
    }
}

#[verifier::loop_isolation(false)]
fn clone_nodes<T: Clone>(v: &Vec<Node<T>>) -> (r: Vec<Node<T>>)
    ensures
        r@.len() == v@.len(),
        forall|i: int| 0 <= i < v@.len() ==> same_shape(#[trigger] v@[i], r@[i], clone_of::<T>()),
    decreases v,
{
    proof {
        assert(decreases_to!(v => v@));
    }
    let mut out: Vec<Node<T>> = Vec::new();
    let mut i: usize = 0;
    while i < v.len()
        invariant
            i <= v@.len(),
            out@.len() == i,
            forall|k: int| 0 <= k < i ==> same_shape(#[trigger] v@[k], out@[k], clone_of::<T>()),
        decreases v@.len() - i,
    {
        let c = v[i].clone_node();
        out.push(c);
        i += 1;
    }
    out
}

#[verifier::loop_isolation(false)]
fn clone_selectors<T: Clone>(v: &Vec<Selector<T>>) -> (r: Vec<Selector<T>>)
    ensures
        r@.len() == v@.len(),
        forall|j: int|
            0 <= j < v@.len() ==> {
                &&& (#[trigger] v@[j]).kind == r@[j].kind
                &&& same_shape(*v@[j].target, *r@[j].target, clone_of::<T>())
            },
    decreases v,
{
    proof {
        assert(decreases_to!(v => v@));
    }
    let mut out: Vec<Selector<T>> = Vec::new();
    let mut j: usize = 0;
    while j < v.len()
        invariant
            j <= v@.len(),
            out@.len() == j,
            forall|m: int|
                0 <= m < j ==> {
                    &&& (#[trigger] v@[m]).kind == out@[m].kind
                    &&& same_shape(*v@[m].target, *out@[m].target, clone_of::<T>())
                },
        decreases v@.len() - j,
    {
        proof {
            assert(decreases_to!(v@ => v@[j as int]));
            assert(decreases_to!(v@[j as int] => v@[j as int].target));
        }
        let target = v[j].target.clone_node();
        out.push(Selector { kind: v[j].kind, target: Box::new(target) });
        j += 1;
    }
    out
}

#[verifier::loop_isolation(false)]
pub(crate) fn clone_operations<T: Clone>(v: &Vec<SetOperation<T>>) -> (r: Vec<SetOperation<T>>)
    ensures
        operations_same_shape(v@, r@, clone_of::<T>()),
    decreases v,
{
    proof {
        assert(decreases_to!(v => v@));
    }
    let mut out: Vec<SetOperation<T>> = Vec::new();
    let mut i: usize = 0;
    while i < v.len()
        invariant
            i <= v@.len(),
            out@.len() == i,
            forall|k: int|
                0 <= k < i ==> {
                    &&& (#[trigger] v@[k]).operator == out@[k].operator
                    &&& v@[k].selectors@.len() == out@[k].selectors@.len()
                    &&& forall|j: int|
                        0 <= j < v@[k].selectors@.len() ==> {
                            &&& (#[trigger] v@[k].selectors@[j]).kind == out@[k].selectors@[j].kind
                            &&& same_shape(
                                *v@[k].selectors@[j].target,
                                *out@[k].selectors@[j].target,
                                clone_of::<T>(),
                            )
                        }
                },
        decreases v@.len() - i,
    {
        proof {
            assert(decreases_to!(v@ => v@[i as int]));
            assert(decreases_to!(v@[i as int] => v@[i as int].selectors));
        }
        let selectors = clone_selectors(&v[i].selectors);
        out.push(SetOperation { operator: v[i].operator, selectors });
        i += 1;
    }
    out
}

pub(crate) fn clone_annotations<T: Clone>(v: &Vec<Annotation<T>>) -> (r: Vec<Annotation<T>>)
    ensures
        annotations_related(v@, r@, clone_of::<T>()),
{
    let mut out: Vec<Annotation<T>> = Vec::new();
    let mut i: usize = 0;
    while i < v.len()
        invariant
            i <= v@.len(),
            out@.len() == i,
            forall|k: int| 0 <= k < i ==> cloned::<T>(#[trigger] v@[k].tag, out@[k].tag),
        decreases v@.len() - i,
    {
        let tag = v[i].tag.clone();
        out.push(Annotation { tag });
        i += 1;
    }
    out
}

impl<T: Clone> Clone for Node<T> {
    /// A copy of the tree, each tag cloned.
    fn clone(&self) -> (r: Self)
        ensures
            same_shape(*self, r, clone_of::<T>()),
    {
        self.clone_node()
    }
}

impl<T: Clone> Clone for DiceSize<T> {
    /// A copy of the size, its expression cloned.
    fn clone(&self) -> (r: Self)
        ensures
            match *self {
                DiceSize::Value(inner) => r matches DiceSize::Value(r2) && same_shape(
                    *inner,
                    *r2,
                    clone_of::<T>(),
                ),
                DiceSize::Percent => r is Percent,
            },
    {
        match self {
            DiceSize::Value(inner) => DiceSize::Value(Box::new(inner.clone_node())),
            DiceSize::Percent => DiceSize::Percent,
        }
    }
}

impl<T: Clone> Clone for Selector<T> {
    /// A copy of the selector, its target cloned.
    fn clone(&self) -> (r: Self)
        ensures
            r.kind == self.kind,
            same_shape(*self.target, *r.target, clone_of::<T>()),
    {
        Selector { kind: self.kind, target: Box::new(self.target.clone_node()) }
    }
}

impl<T: Clone> Clone for SetOperation<T> {
    /// A copy of the operation, its selectors cloned.
    fn clone(&self) -> (r: Self)
        ensures
            operations_same_shape(seq![*self], seq![r], clone_of::<T>()),
    {
        let selectors = clone_selectors(&self.selectors);
        let r = SetOperation { operator: self.operator, selectors };
        assert(seq![*self][0] == *self);
        assert(seq![r][0] == r);
        r
    }
}

} // verus!

verus! {

/// Shapes compose: when `b` has the shape of `a` with tags related by `r1`,
/// and `c` that of `b` with tags related by `r2`, then `c` has the shape of
/// `a` with tags related by any `r3` that contains their composition.
pub proof fn lemma_same_shape_trans<T, U, V>(
    a: Node<T>,
    b: Node<U>,
    c: Node<V>,
    r1: spec_fn(T, U) -> bool,
    r2: spec_fn(U, V) -> bool,
    r3: spec_fn(T, V) -> bool,
)
    requires
        same_shape(a, b, r1),
        same_shape(b, c, r2),
        forall|t: T, u: U, v: V| #![trigger r1(t, u), r2(u, v)] r1(t, u) && r2(u, v) ==> r3(t, v),
    ensures
        same_shape(a, c, r3),
    decreases a,
{
    match a {
        Node::Literal(_) => {},
        Node::Unary { operand, .. } => match b {
            Node::Unary { operand: ob, .. } => match c {
                Node::Unary { operand: oc, .. } => {
                    lemma_same_shape_trans(*operand, *ob, *oc, r1, r2, r3);
                },
                _ => {},
            },
            _ => {},
        },
        Node::Binary { left, right, .. } => match b {
            Node::Binary { left: lb, right: rb, .. } => match c {
                Node::Binary { left: lc, right: rc, .. } => {
                    lemma_same_shape_trans(*left, *lb, *lc, r1, r2, r3);
                    lemma_same_shape_trans(*right, *rb, *rc, r1, r2, r3);
                },
                _ => {},
            },
            _ => {},
        },
        Node::Dice { num, size } => match b {
            Node::Dice { num: nb, size: sb } => match c {
                Node::Dice { num: nc, size: sc } => {
                    match num {
                        Some(n) => match nb {
                            Some(n2) => match nc {
                                Some(n3) => {
                                    lemma_same_shape_trans(*n, *n2, *n3, r1, r2, r3);
                                },
                                None => {},
                            },
                            None => {},
                        },
                        None => {},
                    }
                    match size {
                        DiceSize::Value(s) => match sb {
                            DiceSize::Value(s2) => match sc {
                                DiceSize::Value(s3) => {
                                    lemma_same_shape_trans(*s, *s2, *s3, r1, r2, r3);
                                },
                                _ => {},
                            },
                            _ => {},
                        },
                        _ => {},
                    }
                },
                _ => {},
            },
            _ => {},
        },
        Node::SetLiteral { elements, operations } => match b {
            Node::SetLiteral { elements: eb, operations: ob } => match c {
                Node::SetLiteral { elements: ec, operations: oc } => {
                    assert forall|i: int| 0 <= i < elements@.len() implies same_shape(
                        #[trigger] elements@[i],
                        ec@[i],
                        r3,
                    ) by {
                        assert(decreases_to!(a => elements));
                        assert(decreases_to!(elements => elements@));
                        assert(decreases_to!(elements@ => elements@[i]));
                        lemma_same_shape_trans(elements@[i], eb@[i], ec@[i], r1, r2, r3);
                    }
                    lemma_operations_trans(a, operations@, ob@, oc@, r1, r2, r3);
                },
                _ => {},
            },
            _ => {},
        },
        Node::DiceWithOps { dice, operations } => match b {
            Node::DiceWithOps { dice: db, operations: ob } => match c {
                Node::DiceWithOps { dice: dc, operations: oc } => {
                    lemma_same_shape_trans(*dice, *db, *dc, r1, r2, r3);
                    lemma_operations_trans(a, operations@, ob@, oc@, r1, r2, r3);
                },
                _ => {},
            },
            _ => {},
        },
        Node::Annotated { expr, annotations } => match b {
            Node::Annotated { expr: xb, annotations: ab } => match c {
                Node::Annotated { expr: xc, annotations: ac } => {
                    lemma_same_shape_trans(*expr, *xb, *xc, r1, r2, r3);
                    assert forall|i: int| 0 <= i < annotations@.len() implies r3(
                        #[trigger] annotations@[i].tag,
                        ac@[i].tag,
                    ) by {
                        assert(r1(annotations@[i].tag, ab@[i].tag));
                        assert(r2(ab@[i].tag, ac@[i].tag));
                    }
                },
                _ => {},
            },
            _ => {},
        },
    }
}

proof fn lemma_operations_trans<T, U, V>(
    parent: Node<T>,
    a: Seq<SetOperation<T>>,
    b: Seq<SetOperation<U>>,
    c: Seq<SetOperation<V>>,
    r1: spec_fn(T, U) -> bool,
    r2: spec_fn(U, V) -> bool,
    r3: spec_fn(T, V) -> bool,
)
    requires
        (parent matches Node::SetLiteral { operations, .. } && operations@ == a)
            || (parent matches Node::DiceWithOps { operations, .. } && operations@ == a),
        operations_same_shape(a, b, r1),
        operations_same_shape(b, c, r2),
        forall|t: T, u: U, v: V| #![trigger r1(t, u), r2(u, v)] r1(t, u) && r2(u, v) ==> r3(t, v),
    ensures
        operations_same_shape(a, c, r3),
    decreases parent, 0nat,
{
    assert forall|i: int, j: int| 0 <= i < a.len() && 0 <= j < a[i].selectors@.len() implies same_shape(
        *(#[trigger] a[i].selectors@[j]).target,
        *c[i].selectors@[j].target,
        r3,
    ) by {
        match parent {
            Node::SetLiteral { operations, .. } => {
                assert(decreases_to!(parent => operations));
                assert(decreases_to!(operations => operations@));
            },
            Node::DiceWithOps { operations, .. } => {
                assert(decreases_to!(parent => operations));
                assert(decreases_to!(operations => operations@));
            },
            _ => {},
        }
        assert(decreases_to!(a => a[i]));
        assert(decreases_to!(a[i] => a[i].selectors));
        assert(decreases_to!(a[i].selectors => a[i].selectors@));
        assert(decreases_to!(a[i].selectors@ => a[i].selectors@[j]));
        assert(decreases_to!(a[i].selectors@[j] => a[i].selectors@[j].target));
        lemma_same_shape_trans(
            *a[i].selectors@[j].target,
            *b[i].selectors@[j].target,
            *c[i].selectors@[j].target,
            r1,
            r2,
            r3,
        );
    }
}

} // verus!

verus! {

/// Shapes run both ways: when `b` has the shape of `a` with tags related by
/// `r`, then `a` has the shape of `b` with tags related by any `rc` that
/// contains the converse of `r`.
pub proof fn lemma_same_shape_converse<T, U>(
    a: Node<T>,
    b: Node<U>,
    r: spec_fn(T, U) -> bool,
    rc: spec_fn(U, T) -> bool,
)
    requires
        same_shape(a, b, r),
        forall|t: T, u: U| #[trigger] r(t, u) ==> rc(u, t),
    ensures
        same_shape(b, a, rc),
    decreases a,
{
    match a {
        Node::Literal(_) => {},
        Node::Unary { operand, .. } => match b {
            Node::Unary { operand: ob, .. } => {
                lemma_same_shape_converse(*operand, *ob, r, rc);
            },
            _ => {},
        },
        Node::Binary { left, right, .. } => match b {
            Node::Binary { left: lb, right: rb, .. } => {
                lemma_same_shape_converse(*left, *lb, r, rc);
                lemma_same_shape_converse(*right, *rb, r, rc);
            },
            _ => {},
        },
        Node::Dice { num, size } => match b {
            Node::Dice { num: nb, size: sb } => {
                match num {
                    Some(n) => match nb {
                        Some(n2) => {
                            lemma_same_shape_converse(*n, *n2, r, rc);
                        },
                        None => {},
                    },
                    None => {},
                }
                match size {
                    DiceSize::Value(s) => match sb {
                        DiceSize::Value(s2) => {
                            lemma_same_shape_converse(*s, *s2, r, rc);
                        },
                        _ => {},
                    },
                    _ => {},
                }
            },
            _ => {},
        },
        Node::SetLiteral { elements, operations } => match b {
            Node::SetLiteral { elements: eb, operations: ob } => {
                assert forall|i: int| 0 <= i < eb@.len() implies same_shape(
                    #[trigger] eb@[i],
                    elements@[i],
                    rc,
                ) by {
                    assert(decreases_to!(a => elements));
                    assert(decreases_to!(elements => elements@));
                    assert(decreases_to!(elements@ => elements@[i]));
                    lemma_same_shape_converse(elements@[i], eb@[i], r, rc);
                }
                lemma_operations_converse(a, operations@, ob@, r, rc);
            },
            _ => {},
        },
        Node::DiceWithOps { dice, operations } => match b {
            Node::DiceWithOps { dice: db, operations: ob } => {
                lemma_same_shape_converse(*dice, *db, r, rc);
                lemma_operations_converse(a, operations@, ob@, r, rc);
            },
            _ => {},
        },
        Node::Annotated { expr, annotations } => match b {
            Node::Annotated { expr: xb, annotations: ab } => {
                lemma_same_shape_converse(*expr, *xb, r, rc);
                assert forall|i: int| 0 <= i < ab@.len() implies rc(
                    #[trigger] ab@[i].tag,
                    annotations@[i].tag,
                ) by {
                    assert(r(annotations@[i].tag, ab@[i].tag));
                }
            },
            _ => {},
        },
    }
}

proof fn lemma_operations_converse<T, U>(
    parent: Node<T>,
    a: Seq<SetOperation<T>>,
    b: Seq<SetOperation<U>>,
    r: spec_fn(T, U) -> bool,
    rc: spec_fn(U, T) -> bool,
)
    requires
        (parent matches Node::SetLiteral { operations, .. } && operations@ == a)
            || (parent matches Node::DiceWithOps { operations, .. } && operations@ == a),
        operations_same_shape(a, b, r),
        forall|t: T, u: U| #[trigger] r(t, u) ==> rc(u, t),
    ensures
        operations_same_shape(b, a, rc),
    decreases parent, 0nat,
{
    assert forall|i: int, j: int| 0 <= i < b.len() && 0 <= j < b[i].selectors@.len() implies same_shape(
        *(#[trigger] b[i].selectors@[j]).target,
        *a[i].selectors@[j].target,
        rc,
    ) by {
        match parent {
            Node::SetLiteral { operations, .. } => {
                assert(decreases_to!(parent => operations));
                assert(decreases_to!(operations => operations@));
            },
            Node::DiceWithOps { operations, .. } => {
                assert(decreases_to!(parent => operations));
                assert(decreases_to!(operations => operations@));
            },
            _ => {},
        }
        assert(decreases_to!(a => a[i]));
        assert(decreases_to!(a[i] => a[i].selectors));
        assert(decreases_to!(a[i].selectors => a[i].selectors@));
        assert(decreases_to!(a[i].selectors@ => a[i].selectors@[j]));
        assert(decreases_to!(a[i].selectors@[j] => a[i].selectors@[j].target));
        lemma_same_shape_converse(*a[i].selectors@[j].target, *b[i].selectors@[j].target, r, rc);
    }
}

/// The relation "the tags are equal".
pub open spec fn equal_tags<T>() -> spec_fn(T, T) -> bool {
    |t: T, u: T| t == u
}

/// Mapping the tags with a function that returns its argument gives the
/// tree back: `n.map_tags(|t| t)` equals `n` in every variant, operator,
/// literal, selector kind, order and tag.
pub proof fn lemma_map_tags_identity<T, F: Fn(T) -> T>(n: Node<T>, r: Node<T>, f: F)
    requires
        retagged(n, r, f),
        forall|t: T, u: T| #[trigger] call_ensures(f, (t,), u) ==> u == t,
    ensures
        same_shape(n, r, equal_tags::<T>()),
{
    // Turn the tree around twice; the second turn narrows the relation to
    // equality.
    let back = |u: T, t: T| call_ensures(f, (t,), u);
    lemma_same_shape_converse(n, r, returned_by(f), back);
    lemma_same_shape_converse(r, n, back, equal_tags::<T>());
}

/// Mapping the tags with `f` and then with `g` gives the tree that mapping
/// them once with `h` gives, when `h` returns `g(f(t))` for each tag `t`:
/// `n.map_tags(f).map_tags(g)` equals `n.map_tags(|t| g(f(t)))`.
pub proof fn lemma_map_tags_compose<T, U, V, F: Fn(T) -> U, G: Fn(U) -> V, H: Fn(T) -> V>(
    n: Node<T>,
    a: Node<U>,
    b: Node<V>,
    c: Node<V>,
    f: F,
    g: G,
    h: H,
)
    requires
        retagged(n, a, f),
        retagged(a, b, g),
        retagged(n, c, h),
        forall|t: T, u: U, v: V, w: V|
            #![trigger call_ensures(f, (t,), u), call_ensures(g, (u,), v), call_ensures(h, (t,), w)]
            call_ensures(f, (t,), u) && call_ensures(g, (u,), v) && call_ensures(h, (t,), w) ==> v
                == w,
    ensures
        same_shape(b, c, equal_tags::<V>()),
{
    // From `n` to `b`, each tag `t` becomes a `v` equal to every `h(t)`.
    let through = |t: T, v: V| forall|w: V| #[trigger] call_ensures(h, (t,), w) ==> v == w;
    assert forall|t: T, u: U, v: V|
        #![trigger returned_by(f)(t, u), returned_by(g)(u, v)]
        returned_by(f)(t, u) && returned_by(g)(u, v) implies through(t, v) by {
        assert forall|w: V| #[trigger] call_ensures(h, (t,), w) implies v == w by {
            assert(call_ensures(f, (t,), u) && call_ensures(g, (u,), v));
        }
    }
    lemma_same_shape_trans(n, a, b, returned_by(f), returned_by(g), through);
    // From `b` back to `n`, then on to `c`.
    let back = |v: V, t: T| through(t, v);
    lemma_same_shape_converse(n, b, through, back);
    assert forall|v: V, t: T, w: V| #![trigger back(v, t), returned_by(h)(t, w)] back(v, t) && returned_by(h)(t, w) implies equal_tags::<V>()(v, w) by {
        assert(call_ensures(h, (t,), w));
    }
    lemma_same_shape_trans(b, n, c, back, returned_by(h), equal_tags::<V>());
}

} // verus!
