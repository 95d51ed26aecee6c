//! The result tree of an evaluation, and the evaluation steps that decide
//! without arithmetic: the roll budget, which dice a selector picks, keeping,
//! dropping and clamping dice.
use vstd::prelude::*;

use crate::ast::{
    annotations_related, clone_annotations, clone_of, clone_operations, map_annotations,
    map_operations, operations_same_shape, returned_by, Annotation, BinaryOperator, DiceSize, Node,
    SelectorKind, SetOperation, SetOperator, UnaryOperator,
};
use crate::error::RollatoriumError;
use crate::number::{is_nan, is_zero, num_le, num_lt, order_key, Number};
use crate::pool::{operator_name, operator_name_of};
use crate::text::owned;
use vstd::string::StringExecFns;

verus! {

/// Limits on one evaluation.
#[derive(Debug, Clone)]
pub struct EvalConfig {
    /// How many dice one evaluation may roll at most.
    pub max_rolls: usize,
}

impl Default for EvalConfig {
    /// At most 1000 rolls.
    fn default() -> (r: Self)
        ensures
            r.max_rolls == 1000,
    {
        EvalConfig { max_rolls: 1000 }
    }
}

/// The evaluated form of an expression: its total and how it came about.
#[derive(Debug)]
pub struct EvalResult<T> {
    /// The value of the expression.
    pub total: Number,
    /// The evaluated tree.
    pub value: Value<T>,
}

/// One node of the evaluated tree.
#[derive(Debug)]
pub enum Value<T> {
    /// A numeric literal.
    Literal(Number),
    /// A unary operation and its evaluated operand.
    Unary {
        /// The operator applied.
        operator: UnaryOperator,
        /// The evaluated operand.
        operand: Box<EvalResult<T>>,
    },
    /// A binary operation and its evaluated operands.
    Binary {
        /// The operator applied.
        operator: BinaryOperator,
        /// The evaluated left operand.
        left: Box<EvalResult<T>>,
        /// The evaluated right operand.
        right: Box<EvalResult<T>>,
    },
    /// A pool of rolled dice.
    Dice(DiceRoll<T>),
    /// An evaluated set literal.
    SetLiteral(SetRoll<T>),
    /// An annotated expression.
    Annotated {
        /// The evaluated expression.
        expr: Box<EvalResult<T>>,
        /// The tags attached to it.
        annotations: Vec<Annotation<T>>,
    },
}

/// A rolled pool of dice.
#[derive(Debug)]
pub struct DiceRoll<T> {
    /// How many dice were asked for.
    pub quantity: usize,
    /// The number of faces of each die (9 for `d%`, whose faces are tens).
    pub size: u32,
    /// Every die rolled, including those added by rerolls and explosions.
    pub dice: Vec<DieResult>,
    /// The operations applied to the pool.
    pub operations: Vec<SetOperation<T>>,
}

/// One die of a pool.
#[derive(Debug)]
pub struct DieResult {
    /// The die's final value.
    pub value: Number,
    /// Every value the die showed, in order.
    pub rolls: Vec<Number>,
    /// Whether the die counts towards the total.
    pub kept: bool,
    /// Whether the die was dropped (the opposite of `kept`).
    pub dropped: bool,
    /// Where the die came from.
    pub origin: DieOrigin,
    /// The clamps applied to the die, in order.
    pub adjustments: Vec<DieAdjustment>,
}

/// Where a die of a pool came from.
#[derive(Debug, Clone, Copy, PartialEq, Eq, Structural)]
pub enum DieOrigin {
    /// One of the dice asked for.
    Original,
    /// Added by a reroll-and-add.
    RerollAdd,
    /// Added by an explosion.
    Explosion,
}

/// A clamp applied to a die.
#[derive(Debug, Clone, Copy)]
pub enum DieAdjustment {
    /// Raised to `threshold` from `previous`.
    Minimum {
        /// The minimum applied.
        threshold: Number,
        /// The value before.
        previous: Number,
    },
    /// Lowered to `threshold` from `previous`.
    Maximum {
        /// The maximum applied.
        threshold: Number,
        /// The value before.
        previous: Number,
    },
}

/// An evaluated set literal.
#[derive(Debug)]
pub struct SetRoll<T> {
    /// The evaluated elements.
    pub elements: Vec<SetElement<T>>,
    /// The operations applied to the set.
    pub operations: Vec<SetOperation<T>>,
}

/// One element of an evaluated set.
#[derive(Debug)]
pub struct SetElement<T> {
    /// The evaluated element.
    pub value: EvalResult<T>,
    /// Whether the element counts towards the total.
    pub kept: bool,
    /// Whether the element was dropped (the opposite of `kept`).
    pub dropped: bool,
}

impl DieResult {
    /// A kept die that shows `value`, rolled once.
    pub fn new(value: Number, origin: DieOrigin) -> (r: DieResult)
        ensures
            r.value == value,
            r.rolls@ == seq![value],
            r.kept,
            !r.dropped,
            r.origin == origin,
            r.adjustments@.len() == 0,
    {
        DieResult {
            value,
            rolls: vec![value],
            kept: true,
            dropped: false,
            origin,
            adjustments: Vec::new(),
        }
    }

    /// The die's final value.
    pub fn value(&self) -> (r: Number)
        ensures
            r == self.value,
    {
        self.value
    }

    /// Whether the die counts towards the total.
    pub fn kept(&self) -> (r: bool)
        ensures
            r == self.kept,
    {
        self.kept
    }

    /// Sets `dropped` to the opposite of `kept`.
    pub fn refresh_drop_state(&mut self)
        ensures
            final(self).dropped == !old(self).kept,
            final(self).kept == old(self).kept,
            final(self).value == old(self).value,
            final(self).rolls == old(self).rolls,
            final(self).origin == old(self).origin,
            final(self).adjustments == old(self).adjustments,
    {
        self.dropped = !self.kept;
    }
}

impl<'a, T> IntoIterator for &'a DiceRoll<T> {
    type Item = &'a DieResult;
    type IntoIter = std::slice::Iter<'a, DieResult>;

    /// The dice of the pool, in order.
    fn into_iter(self) -> (r: std::slice::Iter<'a, DieResult>)
        ensures
            vstd::std_specs::slice::into_iter_elts(r) == self.dice@,
    {
        broadcast use vstd::std_specs::slice::axiom_spec_slice_iter;

        self.dice.iter()
    }
}

impl<T> SetElement<T> {
    /// Sets `dropped` to the opposite of `kept`.
    pub fn refresh_drop_state(&mut self)
        ensures
            final(self).dropped == !old(self).kept,
            final(self).kept == old(self).kept,
            final(self).value == old(self).value,
    {
        self.dropped = !self.kept;
    }
}

/// Marks each die of a pool dropped exactly when it is not kept.
pub fn refresh_pool(dice: &mut Vec<DieResult>)
    ensures
        final(dice)@.len() == old(dice)@.len(),
        forall|i: int|
            0 <= i < old(dice)@.len() ==> {
                &&& (#[trigger] final(dice)@[i]).dropped == !old(dice)@[i].kept
                &&& final(dice)@[i].kept == old(dice)@[i].kept
                &&& final(dice)@[i].value == old(dice)@[i].value
                &&& final(dice)@[i].rolls == old(dice)@[i].rolls
                &&& final(dice)@[i].origin == old(dice)@[i].origin
                &&& final(dice)@[i].adjustments == old(dice)@[i].adjustments
            },
{
    let ghost orig = dice@;
    let n = dice.len();
    let mut out: Vec<DieResult> = Vec::new();
    let mut i: usize = 0;
    while i < n
        invariant
            n == orig.len(),
            i <= n,
            dice@ == orig.skip(i as int),
            out@.len() == i,
            forall|k: int|
                0 <= k < i ==> {
                    &&& (#[trigger] out@[k]).dropped == !orig[k].kept
                    &&& out@[k].kept == orig[k].kept
                    &&& out@[k].value == orig[k].value
                    &&& out@[k].rolls == orig[k].rolls
                    &&& out@[k].origin == orig[k].origin
                    &&& out@[k].adjustments == orig[k].adjustments
                },
        decreases n - i,
    {
        let mut d = dice.remove(0);
        assert(d == orig[i as int]);
        d.refresh_drop_state();
        out.push(d);
        assert(dice@ =~= orig.skip(i + 1));
        i += 1;
    }
    *dice = out;
}

/// Marks each element of a set dropped exactly when it is not kept.
pub fn refresh_elements<T>(elements: &mut Vec<SetElement<T>>)
    ensures
        final(elements)@.len() == old(elements)@.len(),
        forall|i: int|
            0 <= i < old(elements)@.len() ==> {
                &&& (#[trigger] final(elements)@[i]).dropped == !old(elements)@[i].kept
                &&& final(elements)@[i].kept == old(elements)@[i].kept
                &&& final(elements)@[i].value == old(elements)@[i].value
            },
{
    let ghost orig = elements@;
    let n = elements.len();
    let mut out: Vec<SetElement<T>> = Vec::new();
    let mut i: usize = 0;
    while i < n
        invariant
            n == orig.len(),
            i <= n,
            elements@ == orig.skip(i as int),
            out@.len() == i,
            forall|k: int|
                0 <= k < i ==> {
                    &&& (#[trigger] out@[k]).dropped == !orig[k].kept
                    &&& out@[k].kept == orig[k].kept
                    &&& out@[k].value == orig[k].value
                },
        decreases n - i,
    {
        let mut e = elements.remove(0);
        assert(e == orig[i as int]);
        e.refresh_drop_state();
        out.push(e);
        assert(elements@ =~= orig.skip(i + 1));
        i += 1;
    }
    *elements = out;
}

/// `b` is a copy of the die `a`: the same value, rolls, flags, origin and
/// clamps.
pub open spec fn same_die(a: DieResult, b: DieResult) -> bool {
    &&& b.value == a.value
    &&& b.rolls@ == a.rolls@
    &&& b.kept == a.kept
    &&& b.dropped == a.dropped
    &&& b.origin == a.origin
    &&& b.adjustments@ == a.adjustments@
}

/// `b` holds copies of the dice of `a`, in order.
pub open spec fn same_dice(a: Seq<DieResult>, b: Seq<DieResult>) -> bool {
    &&& b.len() == a.len()
    &&& forall|i: int| 0 <= i < a.len() ==> same_die(#[trigger] a[i], b[i])
}

/// `b` is the pool `a` with its operations' tags related by `rel` to those
/// of `a`; the counts and the dice are the same.
pub open spec fn dice_roll_same_shape<T, U>(
    a: DiceRoll<T>,
    b: DiceRoll<U>,
    rel: spec_fn(T, U) -> bool,
) -> bool {
    &&& b.quantity == a.quantity
    &&& b.size == a.size
    &&& same_dice(a.dice@, b.dice@)
    &&& operations_same_shape(a.operations@, b.operations@, rel)
}

/// `b` has the shape of `a`, its tags related by `rel` to those of `a`; the
/// totals, dice and flags are the same.
pub open spec fn result_same_shape<T, U>(
    a: EvalResult<T>,
    b: EvalResult<U>,
    rel: spec_fn(T, U) -> bool,
) -> bool
    decreases a,
{
    &&& a.total == b.total
    &&& value_same_shape(a.value, b.value, rel)
}

/// `b` has the shape of `a`, its tags related by `rel` to those of `a`; the
/// totals, dice and flags are the same.
pub open spec fn value_same_shape<T, U>(a: Value<T>, b: Value<U>, rel: spec_fn(T, U) -> bool) -> bool
    decreases a,
{
    match a {
        Value::Literal(x) => b == Value::<U>::Literal(x),
        Value::Unary { operator, operand } => match b {
            Value::Unary { operator: op2, operand: operand2 } => operator == op2
                && result_same_shape(*operand, *operand2, rel),
            _ => false,
        },
        Value::Binary { operator, left, right } => match b {
            Value::Binary { operator: op2, left: l2, right: r2 } => operator == op2
                && result_same_shape(*left, *l2, rel) && result_same_shape(*right, *r2, rel),
            _ => false,
        },
        Value::Dice(roll) => match b {
            Value::Dice(roll2) => dice_roll_same_shape(roll, roll2, rel),
            _ => false,
        },
        Value::SetLiteral(roll) => match b {
            Value::SetLiteral(roll2) => {
                &&& roll.elements@.len() == roll2.elements@.len()
                &&& forall|i: int|
                    0 <= i < roll.elements@.len() ==> {
                        &&& (#[trigger] roll.elements@[i]).kept == roll2.elements@[i].kept
                        &&& roll.elements@[i].dropped == roll2.elements@[i].dropped
                        &&& result_same_shape(roll.elements@[i].value, roll2.elements@[i].value, rel)
                    }
                &&& operations_same_shape(roll.operations@, roll2.operations@, rel)
            },
            _ => false,
        },
        Value::Annotated { expr, annotations } => match b {
            Value::Annotated { expr: x2, annotations: a2 } => result_same_shape(*expr, *x2, rel)
                && annotations_related(annotations@, a2@, rel),
            _ => false,
        },
    }
}

impl<T> EvalResult<T> {
    /// Transforms every tag in the evaluated tree, producing an `EvalResult`
    /// over a new tag type; totals, dice and flags are kept as they are.
    pub fn map_tags<U, F: Fn(T) -> U>(self, f: F) -> (r: EvalResult<U>)
        requires
            forall|t: T| call_requires(f, (t,)),
        ensures
            result_same_shape(self, r, returned_by(f)),
    {
        self.map_tags_inner(&f)
    }

    fn map_tags_inner<U, F: Fn(T) -> U>(self, f: &F) -> (r: EvalResult<U>)
        requires
            forall|t: T| call_requires(*f, (t,)),
        ensures
            result_same_shape(self, r, returned_by(*f)),
        decreases self,
    {
        let EvalResult { total, value } = self;
        let value = match value {
            Value::Literal(v) => Value::Literal(v),
            Value::Unary { operator, operand } => {
                let operand = (*operand).map_tags_inner(f);
                Value::Unary { operator, operand: Box::new(operand) }
            },
            Value::Binary { operator, left, right } => {
                let left = (*left).map_tags_inner(f);
                let right = (*right).map_tags_inner(f);
                Value::Binary { operator, left: Box::new(left), right: Box::new(right) }
            },
            Value::Dice(roll) => {
                let DiceRoll { quantity, size, dice, operations } = roll;
                let operations = map_operations(operations, f);
                Value::Dice(DiceRoll { quantity, size, dice, operations })
            },
            Value::SetLiteral(roll) => {
                let SetRoll { elements, operations } = roll;
                let elements = map_elements(elements, f);
                let operations = map_operations(operations, f);
                Value::SetLiteral(SetRoll { elements, operations })
            },
            Value::Annotated { expr, annotations } => {
                let expr = (*expr).map_tags_inner(f);
                let annotations = map_annotations(annotations, f);
                Value::Annotated { expr: Box::new(expr), annotations }
            },
        };
        EvalResult { total, value }
    }
}

#[verifier::loop_isolation(false)]
fn map_elements<T, U, F: Fn(T) -> U>(v: Vec<SetElement<T>>, f: &F) -> (r: Vec<SetElement<U>>)
    requires
        forall|t: T| call_requires(*f, (t,)),
    ensures
        r@.len() == v@.len(),
        forall|i: int|
            0 <= i < v@.len() ==> {
                &&& (#[trigger] v@[i]).kept == r@[i].kept
                &&& v@[i].dropped == r@[i].dropped
                &&& result_same_shape(v@[i].value, r@[i].value, returned_by(*f))
            },
    decreases v,
{
    let ghost orig = v@;
    proof {
        assert(decreases_to!(v => v@));
    }
    let mut rest = v;
    let mut out: Vec<SetElement<U>> = Vec::new();
    while rest.len() > 0
        invariant
            out@.len() + rest@.len() == orig.len(),
            rest@ == orig.skip(out@.len() as int),
            forall|i: int|
                0 <= i < out@.len() ==> {
                    &&& (#[trigger] orig[i]).kept == out@[i].kept
                    &&& orig[i].dropped == out@[i].dropped
                    &&& result_same_shape(orig[i].value, out@[i].value, returned_by(*f))
                },
        decreases rest@.len(),
    {
        let ghost k = out@.len() as int;
        let e = rest.remove(0);
        assert(e == orig[k]);
        proof {
            assert(decreases_to!(orig => orig[k]));
            assert(decreases_to!(orig[k] => orig[k].value));
        }
        let SetElement { value, kept, dropped } = e;
        let value = value.map_tags_inner(f);
        out.push(SetElement { value, kept, dropped });
        assert(rest@ =~= orig.skip(out@.len() as int));
    }
    out
}

fn copy_numbers(v: &Vec<Number>) -> (r: Vec<Number>)
    ensures
        r@ == v@,
{
    let mut out: Vec<Number> = Vec::new();
    let mut i: usize = 0;
    while i < v.len()
        invariant
            i <= v@.len(),
            out@ == v@.take(i as int),
        decreases v@.len() - i,
    {
        out.push(v[i]);
        proof {
            assert(v@.take(i + 1) =~= v@.take(i as int).push(v@[i as int]));
        }
        i += 1;
    }
    proof {
        assert(v@.take(v@.len() as int) =~= v@);
    }
    out
}

fn copy_adjustments(v: &Vec<DieAdjustment>) -> (r: Vec<DieAdjustment>)
    ensures
        r@ == v@,
{
    let mut out: Vec<DieAdjustment> = Vec::new();
    let mut i: usize = 0;
    while i < v.len()
        invariant
            i <= v@.len(),
            out@ == v@.take(i as int),
        decreases v@.len() - i,
    {
        out.push(v[i]);
        proof {
            assert(v@.take(i + 1) =~= v@.take(i as int).push(v@[i as int]));
        }
        i += 1;
    }
    proof {
        assert(v@.take(v@.len() as int) =~= v@);
    }
    out
}

impl Clone for DieResult {
    /// A copy of the die.
    fn clone(&self) -> (r: Self)
        ensures
            same_die(*self, r),
    {
        DieResult {
            value: self.value,
            rolls: copy_numbers(&self.rolls),
            kept: self.kept,
            dropped: self.dropped,
            origin: self.origin,
            adjustments: copy_adjustments(&self.adjustments),
        }
    }
}

fn copy_dice(v: &Vec<DieResult>) -> (r: Vec<DieResult>)
    ensures
        same_dice(v@, r@),
{
    let mut out: Vec<DieResult> = Vec::new();
    let mut i: usize = 0;
    while i < v.len()
        invariant
            i <= v@.len(),
            out@.len() == i,
            forall|k: int| 0 <= k < i ==> same_die(#[trigger] v@[k], out@[k]),
        decreases v@.len() - i,
    {
        out.push(v[i].clone());
        i += 1;
    }
    out
}

impl<T: Clone> Clone for DiceRoll<T> {
    /// A copy of the pool, the tags of its operations cloned.
    fn clone(&self) -> (r: Self)
        ensures
            dice_roll_same_shape(*self, r, clone_of::<T>()),
    {
        DiceRoll {
            quantity: self.quantity,
            size: self.size,
            dice: copy_dice(&self.dice),
            operations: clone_operations(&self.operations),
        }
    }
}

fn clone_result<T: Clone>(e: &EvalResult<T>) -> (r: EvalResult<T>)
    ensures
        result_same_shape(*e, r, clone_of::<T>()),
    decreases e, 1nat,
{
    let value = clone_value(&e.value);
    EvalResult { total: e.total, value }
}

fn clone_value<T: Clone>(v: &Value<T>) -> (r: Value<T>)
    ensures
        value_same_shape(*v, r, clone_of::<T>()),
    decreases v, 0nat,
{
    match v {
        Value::Literal(x) => Value::Literal(*x),
        Value::Unary { operator, operand } => {
            let operand = clone_result(operand);
            Value::Unary { operator: *operator, operand: Box::new(operand) }
        },
        Value::Binary { operator, left, right } => {
            let left = clone_result(left);
            let right = clone_result(right);
            Value::Binary { operator: *operator, left: Box::new(left), right: Box::new(right) }
        },
        Value::Dice(roll) => Value::Dice(roll.clone()),
        Value::SetLiteral(roll) => {
            proof {
                assert(decreases_to!(*v => roll.elements));
            }
            let elements = clone_elements(&roll.elements);
            let operations = clone_operations(&roll.operations);
            Value::SetLiteral(SetRoll { elements, operations })
        },
        Value::Annotated { expr, annotations } => {
            let expr = clone_result(expr);
            let annotations = clone_annotations(annotations);
            Value::Annotated { expr: Box::new(expr), annotations }
        },
    }
}

#[verifier::loop_isolation(false)]
fn clone_elements<T: Clone>(v: &Vec<SetElement<T>>) -> (r: Vec<SetElement<T>>)
    ensures
        r@.len() == v@.len(),
        forall|i: int|
            0 <= i < v@.len() ==> {
                &&& (#[trigger] v@[i]).kept == r@[i].kept
                &&& v@[i].dropped == r@[i].dropped
                &&& result_same_shape(v@[i].value, r@[i].value, clone_of::<T>())
            },
    decreases v, 2nat,
{
    proof {
        assert(decreases_to!(v => v@));
    }
    let mut out: Vec<SetElement<T>> = Vec::new();
    let mut i: usize = 0;
    while i < v.len()
        invariant
            i <= v@.len(),
            out@.len() == i,
            forall|k: int|
                0 <= k < i ==> {
                    &&& (#[trigger] v@[k]).kept == out@[k].kept
                    &&& v@[k].dropped == out@[k].dropped
                    &&& result_same_shape(v@[k].value, out@[k].value, clone_of::<T>())
                },
        decreases v@.len() - i,
    {
        proof {
            assert(decreases_to!(v@ => v@[i as int]));
            assert(decreases_to!(v@[i as int] => v@[i as int].value));
        }
        let value = clone_result(&v[i].value);
        out.push(SetElement { value, kept: v[i].kept, dropped: v[i].dropped });
        i += 1;
    }
    out
}

impl<T: Clone> Clone for EvalResult<T> {
    /// A copy of the result, each tag cloned.
    fn clone(&self) -> (r: Self)
        ensures
            result_same_shape(*self, r, clone_of::<T>()),
    {
        clone_result(self)
    }
}

impl<T: Clone> Clone for Value<T> {
    /// A copy of the evaluated tree, each tag cloned.
    fn clone(&self) -> (r: Self)
        ensures
            value_same_shape(*self, r, clone_of::<T>()),
    {
        clone_value(self)
    }
}

impl<T: Clone> Clone for SetRoll<T> {
    /// A copy of the evaluated set, each tag cloned.
    fn clone(&self) -> (r: Self)
        ensures
            r.elements@.len() == self.elements@.len(),
            forall|i: int|
                0 <= i < self.elements@.len() ==> {
                    &&& (#[trigger] self.elements@[i]).kept == r.elements@[i].kept
                    &&& self.elements@[i].dropped == r.elements@[i].dropped
                    &&& result_same_shape(self.elements@[i].value, r.elements@[i].value, clone_of::<T>())
                },
            operations_same_shape(self.operations@, r.operations@, clone_of::<T>()),
    {
        SetRoll {
            elements: clone_elements(&self.elements),
            operations: clone_operations(&self.operations),
        }
    }
}

impl<T: Clone> Clone for SetElement<T> {
    /// A copy of the element, each tag cloned.
    fn clone(&self) -> (r: Self)
        ensures
            r.kept == self.kept,
            r.dropped == self.dropped,
            result_same_shape(self.value, r.value, clone_of::<T>()),
    {
        SetElement { value: clone_result(&self.value), kept: self.kept, dropped: self.dropped }
    }
}

/// How many dice an evaluation has rolled, against how many it may roll.
pub struct RollBudget {
    max_rolls: usize,
    rolls: usize,
}

impl RollBudget {
    /// No more rolls are used than allowed.
    #[verifier::type_invariant]
    closed spec fn within_limit(&self) -> bool {
        self.rolls <= self.max_rolls
    }

    /// A budget of `config.max_rolls` rolls, none used.
    pub fn new(config: &EvalConfig) -> (r: RollBudget)
        ensures
            r.max_rolls() == config.max_rolls,
            r.rolls() == 0,
    {
        RollBudget { max_rolls: config.max_rolls, rolls: 0 }
    }

    /// The most rolls allowed.
    pub closed spec fn max_rolls(&self) -> nat {
        self.max_rolls as nat
    }

    /// The rolls used so far.
    pub closed spec fn rolls(&self) -> nat {
        self.rolls as nat
    }

    /// The rolls used so far, never more than allowed: an evaluation never
    /// rolls more dice than `max_rolls`.
    pub fn used(&self) -> (r: usize)
        ensures
            r == self.rolls(),
            r <= self.max_rolls(),
    {
        proof {
            use_type_invariant(self);
        }
        self.rolls
    }

    /// Spends one roll, or fails when all are spent: the error is
    /// `Eval("Exceeded maximum number of rolls")` and the budget is unchanged.
    pub fn take(&mut self) -> (r: Result<(), RollatoriumError>)
        ensures
            final(self).max_rolls() == old(self).max_rolls(),
            final(self).rolls() <= final(self).max_rolls(),
            old(self).rolls() >= old(self).max_rolls() ==> {
                &&& final(self).rolls() == old(self).rolls()
                &&& r matches Err(RollatoriumError::Eval(m)) && m@ == "Exceeded maximum number of rolls"@
            },
            old(self).rolls() < old(self).max_rolls() ==> {
                &&& final(self).rolls() == old(self).rolls() + 1
                &&& r is Ok
            },
    {
        proof {
            use_type_invariant(&*self);
        }
        if self.rolls >= self.max_rolls {
            return Err(RollatoriumError::Eval(owned("Exceeded maximum number of rolls")));
        }
        self.rolls = self.rolls + 1;
        Ok(())
    }
}

/// The faces a die can show, lowest and highest: 0..=9 for a percentile die
/// (`None`, the faces standing for tens), 1..=`size` otherwise. A size of zero
/// fails with `Eval("Die size must be positive")`.
pub fn die_bounds(size: Option<u32>) -> (r: Result<(u32, u32), RollatoriumError>)
    ensures
        match size {
            None => r == Ok::<(u32, u32), RollatoriumError>((0u32, 9u32)),
            Some(s) => if s == 0 {
                r matches Err(RollatoriumError::Eval(m)) && m@ == "Die size must be positive"@
            } else {
                r == Ok::<(u32, u32), RollatoriumError>((1u32, s))
            },
        },
{
    match size {
        None => Ok((0, 9)),
        Some(s) => {
            if s == 0 {
                Err(RollatoriumError::Eval(owned("Die size must be positive")))
            } else {
                Ok((1, s))
            }
        },
    }
}

/// The value a die shows for the face `sample`: ten times the face for a
/// percentile die, the face itself otherwise.
pub fn face_value(sample: u32, percent: bool) -> (r: u32)
    requires
        percent ==> sample <= 9,
    ensures
        r == if percent {
            sample * 10
        } else {
            sample as int
        },
{
    if percent {
        sample * 10
    } else {
        sample
    }
}

/// The count and the size of the dice node that a dice-with-operations node
/// wraps; any other node fails with `Eval("DiceWithOps must contain a dice
/// node")`.
pub fn dice_parts<T>(node: &Node<T>) -> (r: Result<(Option<&Node<T>>, &DiceSize<T>), RollatoriumError>)
    ensures
        match *node {
            Node::Dice { num, size } => r matches Ok(p) && *p.1 == size && match num {
                Some(b) => p.0 matches Some(x) && *x == *b,
                None => p.0 is None,
            },
            _ => r matches Err(RollatoriumError::Eval(m)) && m@ == "DiceWithOps must contain a dice node"@,
        },
{
    match node {
        Node::Dice { num, size } => {
            let count = match num {
                Some(b) => Some(&**b),
                None => None,
            };
            Ok((count, size))
        },
        _ => Err(RollatoriumError::Eval(owned("DiceWithOps must contain a dice node"))),
    }
}

/// Whether `operator` divides (or takes a remainder) by its right operand.
pub open spec fn is_division(operator: BinaryOperator) -> bool {
    operator == BinaryOperator::Divide || operator == BinaryOperator::IntDivide || operator
        == BinaryOperator::Modulo
}

/// Whether applying `operator` with the right operand `divisor` divides by
/// zero: a division, an integer division or a remainder whose divisor is zero
/// (of either sign).
pub fn divides_by_zero(operator: BinaryOperator, divisor: Number) -> (r: bool)
    ensures
        r == (is_division(operator) && is_zero(divisor)),
{
    match operator {
        BinaryOperator::Divide | BinaryOperator::IntDivide | BinaryOperator::Modulo => divisor.is_zero(),
        _ => false,
    }
}

/// The values of a pool's dice.
pub open spec fn die_values(dice: Seq<DieResult>) -> Seq<Number> {
    dice.map_values(|d: DieResult| d.value)
}

/// Which of a pool's dice are kept.
pub open spec fn die_kept(dice: Seq<DieResult>) -> Seq<bool> {
    dice.map_values(|d: DieResult| d.kept)
}

/// The totals of a set's elements.
pub open spec fn element_totals<T>(elements: Seq<SetElement<T>>) -> Seq<Number> {
    elements.map_values(|e: SetElement<T>| e.value.total)
}

/// Which of a set's elements a selection may pick: all of them, or only the
/// kept ones.
pub open spec fn element_eligible<T>(elements: Seq<SetElement<T>>, only_kept: bool) -> Seq<bool> {
    elements.map_values(|e: SetElement<T>| !only_kept || e.kept)
}

/// In a ranking for the highest (or lowest) values, the entry at `i` comes
/// before the one at `j`: its value is larger (smaller), or the values are
/// equal and `i` comes first.
pub open spec fn ranks_before(values: Seq<Number>, highest: bool, i: int, j: int) -> bool {
    let ki = order_key(values[i]);
    let kj = order_key(values[j]);
    if highest {
        ki > kj || (ki == kj && i < j)
    } else {
        ki < kj || (ki == kj && i < j)
    }
}

/// `r` lists the first `count` eligible entries of `values` in the ranking
/// for the highest (or lowest) values, in ranking order; all of them when
/// there are fewer.
pub open spec fn is_ranked_selection(
    values: Seq<Number>,
    eligible: Seq<bool>,
    count: nat,
    highest: bool,
    r: Seq<usize>,
) -> bool {
    &&& r.len() <= count
    &&& forall|a: int| 0 <= a < r.len() ==> r[a] < values.len() && #[trigger] eligible[r[a] as int]
    &&& forall|a: int, b: int|
        0 <= a < b < r.len() ==> ranks_before(values, highest, #[trigger] r[a] as int, #[trigger] r[b] as int)
    &&& forall|k: int|
        0 <= k < values.len() && #[trigger] eligible[k] && !r.contains(k as usize) ==> {
            &&& r.len() == count
            &&& forall|a: int| 0 <= a < r.len() ==> ranks_before(values, highest, #[trigger] r[a] as int, k)
        }
}

/// Picks the first `count` eligible entries in the ranking for the highest
/// (or lowest) values: the values ordered from the highest (lowest), equal
/// values in index order.
#[verifier::loop_isolation(false)]
fn select_ranked(values: &Vec<Number>, eligible: &Vec<bool>, count: usize, highest: bool) -> (r: Vec<usize>)
    requires
        values@.len() == eligible@.len(),
    ensures
        is_ranked_selection(values@, eligible@, count as nat, highest, r@),
{
    let n = values.len();
    let mut taken: Vec<bool> = Vec::new();
    let mut t: usize = 0;
    while t < n
        invariant
            t <= n,
            taken@.len() == t,
            forall|k: int| 0 <= k < t ==> !taken@[k],
        decreases n - t,
    {
        taken.push(false);
        t += 1;
    }
    let mut picked: Vec<usize> = Vec::new();
    let mut exhausted = false;
    while !exhausted && picked.len() < count
        invariant
            n == values@.len() == eligible@.len(),
            taken@.len() == n,
            picked@.len() <= count,
            forall|k: int| 0 <= k < n ==> (#[trigger] taken@[k] <==> picked@.contains(k as usize)),
            forall|a: int| #![trigger picked@[a]] 0 <= a < picked@.len() ==> picked@[a] < n && eligible@[picked@[a] as int],
            forall|a: int, b: int|
                0 <= a < b < picked@.len() ==> ranks_before(
                    values@,
                    highest,
                    #[trigger] picked@[a] as int,
                    #[trigger] picked@[b] as int,
                ),
            forall|k: int|
                0 <= k < n && #[trigger] eligible@[k] && !taken@[k] ==> forall|a: int|
                    0 <= a < picked@.len() ==> ranks_before(values@, highest, #[trigger] picked@[a] as int, k),
            exhausted ==> forall|k: int| 0 <= k < n && #[trigger] eligible@[k] ==> taken@[k],
        decreases count - picked@.len() + (if exhausted { 0int } else { 1int }),
    {
        // Find the best eligible entry not yet taken (`n` while there is none).
        let mut best: usize = n;
        let mut i: usize = 0;
        while i < n
            invariant
                n == values@.len() == eligible@.len() == taken@.len(),
                i <= n,
                best == n || (best < i && eligible@[best as int] && !taken@[best as int]),
                best == n ==> forall|k: int| 0 <= k < i ==> !(#[trigger] eligible@[k] && !taken@[k]),
                best < n ==> forall|k: int|
                    0 <= k < i && #[trigger] eligible@[k] && !taken@[k] && k != best ==> ranks_before(
                        values@,
                        highest,
                        best as int,
                        k,
                    ),
            decreases n - i,
        {
            if eligible[i] && !taken[i] {
                if best == n {
                    best = i;
                } else {
                    let ki = values[i].key();
                    let kb = values[best].key();
                    let better = if highest {
                        ki > kb
                    } else {
                        ki < kb
                    };
                    if better {
                        best = i;
                    }
                }
            }
            i += 1;
        }
        if best == n {
            proof {
                assert forall|k: int| 0 <= k < n && #[trigger] eligible@[k] implies taken@[k] by {
                    assert(!(eligible@[k] && !taken@[k]));
                }
            }
            exhausted = true;
            continue;
        }
        proof {
            // The taken entries, now with `best`, each rank before every
            // eligible entry left.
            assert(!picked@.contains(best));
        }
        let ghost old_r = picked@;
        let ghost old_taken = taken@;
        taken.set(best, true);
        picked.push(best);
        proof {
            assert forall|k: int| 0 <= k < n implies (#[trigger] taken@[k] <==> picked@.contains(k as usize)) by {
                if k == best {
                    assert(picked@[old_r.len() as int] == best);
                } else {
                    if picked@.contains(k as usize) {
                        let a = choose|a: int| 0 <= a < picked@.len() && picked@[a] == k as usize;
                        assert(a < old_r.len());
                        assert(old_r[a] == k as usize);
                    }
                    if old_r.contains(k as usize) {
                        let a = choose|a: int| 0 <= a < old_r.len() && old_r[a] == k as usize;
                        assert(picked@[a] == k as usize);
                    }
                }
            }
            assert forall|a: int| 0 <= a < picked@.len() implies picked@[a] < n && #[trigger] eligible@[picked@[a] as int] by {
                if a < old_r.len() {
                    assert(picked@[a] == old_r[a]);
                    assert(old_r[a] < n && eligible@[old_r[a] as int]);
                } else {
                    assert(picked@[a] == best);
                    assert(best < n && eligible@[best as int]);
                }
            }
            assert forall|a: int, b: int| 0 <= a < b < picked@.len() implies ranks_before(
                values@,
                highest,
                #[trigger] picked@[a] as int,
                #[trigger] picked@[b] as int,
            ) by {
                if b == old_r.len() {
                    assert(old_r[a] == picked@[a]);
                    assert(eligible@[best as int] && !old_taken[best as int]);
                } else {
                    assert(old_r[a] == picked@[a] && old_r[b] == picked@[b]);
                }
            }
        }
    }
    proof {
        assert forall|k: int|
            0 <= k < values@.len() && #[trigger] eligible@[k] && !picked@.contains(k as usize) implies {
            &&& picked@.len() == count
            &&& forall|a: int| 0 <= a < picked@.len() ==> ranks_before(values@, highest, #[trigger] picked@[a] as int, k)
        } by {
            assert(!taken@[k]);
        }
    }
    picked
}

/// The values of a pool's dice, and which of them are kept.
fn die_columns(dice: &Vec<DieResult>) -> (r: (Vec<Number>, Vec<bool>))
    ensures
        r.0@ == die_values(dice@),
        r.1@ == die_kept(dice@),
{
    let mut values: Vec<Number> = Vec::new();
    let mut kept: Vec<bool> = Vec::new();
    let mut i: usize = 0;
    while i < dice.len()
        invariant
            i <= dice@.len(),
            values@ == die_values(dice@.take(i as int)),
            kept@ == die_kept(dice@.take(i as int)),
        decreases dice@.len() - i,
    {
        values.push(dice[i].value);
        kept.push(dice[i].kept);
        proof {
            assert(dice@.take(i + 1) =~= dice@.take(i as int).push(dice@[i as int]));
            assert(values@ =~= die_values(dice@.take(i + 1)));
            assert(kept@ =~= die_kept(dice@.take(i + 1)));
        }
        i += 1;
    }
    proof {
        assert(dice@.take(dice@.len() as int) =~= dice@);
    }
    (values, kept)
}

/// The totals of a set's elements, and which of them a selection may pick.
fn element_columns<T>(elements: &Vec<SetElement<T>>, only_kept: bool) -> (r: (Vec<Number>, Vec<bool>))
    ensures
        r.0@ == element_totals(elements@),
        r.1@ == element_eligible(elements@, only_kept),
{
    let mut values: Vec<Number> = Vec::new();
    let mut eligible: Vec<bool> = Vec::new();
    let mut i: usize = 0;
    while i < elements.len()
        invariant
            i <= elements@.len(),
            values@ == element_totals(elements@.take(i as int)),
            eligible@ == element_eligible(elements@.take(i as int), only_kept),
        decreases elements@.len() - i,
    {
        values.push(elements[i].value.total);
        eligible.push(!only_kept || elements[i].kept);
        proof {
            assert(elements@.take(i + 1) =~= elements@.take(i as int).push(elements@[i as int]));
            assert(values@ =~= element_totals(elements@.take(i + 1)));
            assert(eligible@ =~= element_eligible(elements@.take(i + 1), only_kept));
        }
        i += 1;
    }
    proof {
        assert(elements@.take(elements@.len() as int) =~= elements@);
    }
    (values, eligible)
}

/// The `count` kept dice with the highest values, from the highest; equal
/// values in pool order.
pub fn select_highest(dice: &Vec<DieResult>, count: usize) -> (r: Vec<usize>)
    ensures
        is_ranked_selection(die_values(dice@), die_kept(dice@), count as nat, true, r@),
{
    let (values, kept) = die_columns(dice);
    select_ranked(&values, &kept, count, true)
}

/// The `count` kept dice with the lowest values, from the lowest; equal
/// values in pool order.
pub fn select_lowest(dice: &Vec<DieResult>, count: usize) -> (r: Vec<usize>)
    ensures
        is_ranked_selection(die_values(dice@), die_kept(dice@), count as nat, false, r@),
{
    let (values, kept) = die_columns(dice);
    select_ranked(&values, &kept, count, false)
}

/// The `count` elements (kept ones only, if `only_kept`) with the highest
/// totals, from the highest; equal totals in set order.
pub fn select_set_highest<T>(elements: &Vec<SetElement<T>>, count: usize, only_kept: bool) -> (r: Vec<usize>)
    ensures
        is_ranked_selection(
            element_totals(elements@),
            element_eligible(elements@, only_kept),
            count as nat,
            true,
            r@,
        ),
{
    let (values, eligible) = element_columns(elements, only_kept);
    select_ranked(&values, &eligible, count, true)
}

/// The `count` elements (kept ones only, if `only_kept`) with the lowest
/// totals, from the lowest; equal totals in set order.
pub fn select_set_lowest<T>(elements: &Vec<SetElement<T>>, count: usize, only_kept: bool) -> (r: Vec<usize>)
    ensures
        is_ranked_selection(
            element_totals(elements@),
            element_eligible(elements@, only_kept),
            count as nat,
            false,
            r@,
        ),
{
    let (values, eligible) = element_columns(elements, only_kept);
    select_ranked(&values, &eligible, count, false)
}

/// Whether `value` stands in the relation of `kind` to `target`: greater,
/// greater or equal, less, or less or equal, as binary64 compares them.
pub open spec fn threshold_holds(kind: SelectorKind, value: Number, target: Number) -> bool {
    match kind {
        SelectorKind::GreaterThan => num_lt(target, value),
        SelectorKind::GreaterThanOrEqual => num_le(target, value),
        SelectorKind::LessThan => num_lt(value, target),
        SelectorKind::LessThanOrEqual => num_le(value, target),
        _ => false,
    }
}

/// The indices below `n`, in increasing order, of the eligible entries whose
/// value stands in the relation of `kind` to `target`.
pub open spec fn threshold_indices(
    values: Seq<Number>,
    eligible: Seq<bool>,
    kind: SelectorKind,
    target: Number,
    n: nat,
) -> Seq<usize>
    decreases n,
{
    if n == 0 {
        Seq::empty()
    } else {
        let before = threshold_indices(values, eligible, kind, target, (n - 1) as nat);
        if eligible[n - 1] && threshold_holds(kind, values[n - 1], target) {
            before.push((n - 1) as usize)
        } else {
            before
        }
    }
}

fn select_threshold(values: &Vec<Number>, eligible: &Vec<bool>, kind: SelectorKind, target: Number) -> (r: Vec<usize>)
    requires
        values@.len() == eligible@.len(),
    ensures
        r@ == threshold_indices(values@, eligible@, kind, target, values@.len()),
{
    let n = values.len();
    let mut picked: Vec<usize> = Vec::new();
    let mut i: usize = 0;
    while i < n
        invariant
            n == values@.len() == eligible@.len(),
            i <= n,
            picked@ == threshold_indices(values@, eligible@, kind, target, i as nat),
        decreases n - i,
    {
        let v = values[i];
        let holds = match kind {
            SelectorKind::GreaterThan => target.lt(&v),
            SelectorKind::GreaterThanOrEqual => target.le(&v),
            SelectorKind::LessThan => v.lt(&target),
            SelectorKind::LessThanOrEqual => v.le(&target),
            _ => false,
        };
        if eligible[i] && holds {
            picked.push(i);
        }
        i += 1;
    }
    picked
}

/// The kept dice whose value stands in the relation of `kind` (greater,
/// greater or equal, less, less or equal) to `target`, in pool order.
pub fn select_value(dice: &Vec<DieResult>, kind: SelectorKind, target: Number) -> (r: Vec<usize>)
    ensures
        r@ == threshold_indices(die_values(dice@), die_kept(dice@), kind, target, dice@.len()),
{
    let (values, kept) = die_columns(dice);
    select_threshold(&values, &kept, kind, target)
}

/// The elements (kept ones only, if `only_kept`) whose total stands in the
/// relation of `kind` to `target`, in set order.
pub fn select_set_value<T>(
    elements: &Vec<SetElement<T>>,
    kind: SelectorKind,
    target: Number,
    only_kept: bool,
) -> (r: Vec<usize>)
    ensures
        r@ == threshold_indices(
            element_totals(elements@),
            element_eligible(elements@, only_kept),
            kind,
            target,
            elements@.len(),
        ),
{
    let (values, eligible) = element_columns(elements, only_kept);
    select_threshold(&values, &eligible, kind, target)
}

/// Whether `x` occurs in `v`.
pub(crate) fn contains_index(v: &Vec<usize>, x: usize) -> (r: bool)
    ensures
        r == v@.contains(x),
{
    let mut i: usize = 0;
    while i < v.len()
        invariant
            i <= v@.len(),
            forall|j: int| 0 <= j < i ==> v@[j] != x,
        decreases v@.len() - i,
    {
        if v[i] == x {
            assert(v@[i as int] == x);
            return true;
        }
        i += 1;
    }
    false
}

/// Some list of `lists` holds `x`.
pub open spec fn in_any(lists: Seq<Vec<usize>>, x: usize) -> bool {
    exists|l: int| 0 <= l < lists.len() && #[trigger] lists[l]@.contains(x)
}

/// The numbers below `n` that some list of `lists` holds, in increasing
/// order.
pub open spec fn union_indices(lists: Seq<Vec<usize>>, n: nat) -> Seq<usize>
    decreases n,
{
    if n == 0 {
        Seq::empty()
    } else {
        let before = union_indices(lists, (n - 1) as nat);
        if in_any(lists, (n - 1) as usize) {
            before.push((n - 1) as usize)
        } else {
            before
        }
    }
}

/// The indices below `n` that any of `lists` picks, each once, in increasing
/// order: how the picks of several selectors combine.
pub fn sorted_union(lists: &Vec<Vec<usize>>, n: usize) -> (r: Vec<usize>)
    ensures
        r@ == union_indices(lists@, n as nat),
{
    let mut out: Vec<usize> = Vec::new();
    let mut x: usize = 0;
    while x < n
        invariant
            x <= n,
            out@ == union_indices(lists@, x as nat),
        decreases n - x,
    {
        let mut found = false;
        let mut l: usize = 0;
        while l < lists.len()
            invariant
                l <= lists@.len(),
                found == exists|j: int| 0 <= j < l && #[trigger] lists@[j]@.contains(x),
            decreases lists@.len() - l,
        {
            if contains_index(&lists[l], x) {
                found = true;
            }
            l += 1;
        }
        if found {
            out.push(x);
        }
        x += 1;
    }
    out
}

/// The indices of the kept dice, in pool order.
pub open spec fn kept_indices_spec(dice: Seq<DieResult>, n: nat) -> Seq<usize>
    decreases n,
{
    if n == 0 {
        Seq::empty()
    } else {
        let before = kept_indices_spec(dice, (n - 1) as nat);
        if dice[n - 1].kept {
            before.push((n - 1) as usize)
        } else {
            before
        }
    }
}

/// The indices of the kept dice, in pool order.
pub fn kept_indices(dice: &Vec<DieResult>) -> (r: Vec<usize>)
    ensures
        r@ == kept_indices_spec(dice@, dice@.len()),
{
    let mut out: Vec<usize> = Vec::new();
    let mut i: usize = 0;
    while i < dice.len()
        invariant
            i <= dice@.len(),
            out@ == kept_indices_spec(dice@, i as nat),
        decreases dice@.len() - i,
    {
        if dice[i].kept {
            out.push(i);
        }
        i += 1;
    }
    out
}

/// `d2` is `d` with its `kept` flag set to `kept`.
pub open spec fn with_kept(d: DieResult, d2: DieResult, kept: bool) -> bool {
    &&& d2.kept == kept
    &&& d2.value == d.value
    &&& d2.rolls == d.rolls
    &&& d2.dropped == d.dropped
    &&& d2.origin == d.origin
    &&& d2.adjustments == d.adjustments
}

/// `dice2` is `dice` after a keep of the dice at `selected`: a die stays kept
/// when it was kept and `selected` holds its index; nothing else changes.
pub open spec fn keep_applied(dice: Seq<DieResult>, dice2: Seq<DieResult>, selected: Seq<usize>) -> bool {
    &&& dice2.len() == dice.len()
    &&& forall|i: int|
        0 <= i < dice.len() ==> with_kept(
            #[trigger] dice[i],
            dice2[i],
            dice[i].kept && selected.contains(i as usize),
        )
}

/// `dice2` is `dice` after a drop of the dice at `selected`: a die stays kept
/// when it was kept and `selected` does not hold its index; nothing else
/// changes.
pub open spec fn drop_applied(dice: Seq<DieResult>, dice2: Seq<DieResult>, selected: Seq<usize>) -> bool {
    &&& dice2.len() == dice.len()
    &&& forall|i: int|
        0 <= i < dice.len() ==> with_kept(
            #[trigger] dice[i],
            dice2[i],
            dice[i].kept && !selected.contains(i as usize),
        )
}

/// Keeps only the selected dice among those still kept: a die stays kept
/// when it was kept and `selected` holds its index.
pub fn keep_dice(dice: &mut Vec<DieResult>, selected: &Vec<usize>)
    ensures
        keep_applied(old(dice)@, final(dice)@, selected@),
{
    let ghost orig = dice@;
    let n = dice.len();
    let mut out: Vec<DieResult> = Vec::new();
    let mut i: usize = 0;
    while i < n
        invariant
            n == orig.len(),
            i <= n,
            dice@ == orig.skip(i as int),
            out@.len() == i,
            forall|k: int|
                0 <= k < i ==> with_kept(
                    #[trigger] orig[k],
                    out@[k],
                    orig[k].kept && selected@.contains(k as usize),
                ),
        decreases n - i,
    {
        let d = dice.remove(0);
        assert(d == orig[i as int]);
        let keep = d.kept && contains_index(selected, i);
        out.push(
            DieResult {
                value: d.value,
                rolls: d.rolls,
                kept: keep,
                dropped: d.dropped,
                origin: d.origin,
                adjustments: d.adjustments,
            },
        );
        assert(dice@ =~= orig.skip(i + 1));
        i += 1;
    }
    *dice = out;
}

/// Drops the selected dice: a die stays kept when it was kept and
/// `selected` does not hold its index.
pub fn drop_dice(dice: &mut Vec<DieResult>, selected: &Vec<usize>)
    ensures
        drop_applied(old(dice)@, final(dice)@, selected@),
{
    let ghost orig = dice@;
    let n = dice.len();
    let mut out: Vec<DieResult> = Vec::new();
    let mut i: usize = 0;
    while i < n
        invariant
            n == orig.len(),
            i <= n,
            dice@ == orig.skip(i as int),
            out@.len() == i,
            forall|k: int|
                0 <= k < i ==> with_kept(
                    #[trigger] orig[k],
                    out@[k],
                    orig[k].kept && !selected@.contains(k as usize),
                ),
        decreases n - i,
    {
        let d = dice.remove(0);
        assert(d == orig[i as int]);
        let keep = d.kept && !contains_index(selected, i);
        out.push(
            DieResult {
                value: d.value,
                rolls: d.rolls,
                kept: keep,
                dropped: d.dropped,
                origin: d.origin,
                adjustments: d.adjustments,
            },
        );
        assert(dice@ =~= orig.skip(i + 1));
        i += 1;
    }
    *dice = out;
}

/// Whether a clamp to `threshold` moves the value `v`: up to a minimum when
/// `raise`, down to a maximum otherwise.
pub open spec fn clamp_moves(v: Number, threshold: Number, raise: bool) -> bool {
    if raise {
        num_lt(v, threshold)
    } else {
        num_lt(threshold, v)
    }
}

/// `d2` is `d` clamped to `threshold` when `hit` (its value set to the
/// threshold and the clamp recorded), and `d` unchanged otherwise.
pub open spec fn clamped(d: DieResult, d2: DieResult, threshold: Number, raise: bool, hit: bool) -> bool {
    &&& d2.kept == d.kept
    &&& d2.rolls == d.rolls
    &&& d2.dropped == d.dropped
    &&& d2.origin == d.origin
    &&& if hit {
        &&& d2.value == threshold
        &&& d2.adjustments@ == d.adjustments@.push(
            if raise {
                DieAdjustment::Minimum { threshold, previous: d.value }
            } else {
                DieAdjustment::Maximum { threshold, previous: d.value }
            },
        )
    } else {
        &&& d2.value == d.value
        &&& d2.adjustments == d.adjustments
    }
}

/// `dice2` is `dice` after a clamp to `threshold` of the dice at `affected`:
/// those that the clamp moves (up to a minimum when `raise`, down to a
/// maximum otherwise) are set to it with the clamp recorded; nothing else
/// changes.
pub open spec fn clamp_applied(
    dice: Seq<DieResult>,
    dice2: Seq<DieResult>,
    affected: Seq<usize>,
    threshold: Number,
    raise: bool,
) -> bool {
    &&& dice2.len() == dice.len()
    &&& forall|i: int|
        0 <= i < dice.len() ==> clamped(
            #[trigger] dice[i],
            dice2[i],
            threshold,
            raise,
            affected.contains(i as usize) && clamp_moves(dice[i].value, threshold, raise),
        )
}

/// Clamps the dice whose indices `affected` holds to `threshold`: raises to
/// it those below it when `raise` (a minimum), lowers to it those above it
/// otherwise (a maximum), recording each change; the others stay as they are.
pub fn clamp_dice(dice: &mut Vec<DieResult>, affected: &Vec<usize>, threshold: Number, raise: bool)
    ensures
        clamp_applied(old(dice)@, final(dice)@, affected@, threshold, raise),
{
    let ghost orig = dice@;
    let n = dice.len();
    let mut out: Vec<DieResult> = Vec::new();
    let mut i: usize = 0;
    while i < n
        invariant
            n == orig.len(),
            i <= n,
            dice@ == orig.skip(i as int),
            out@.len() == i,
            forall|k: int|
                0 <= k < i ==> clamped(
                    #[trigger] orig[k],
                    out@[k],
                    threshold,
                    raise,
                    affected@.contains(k as usize) && clamp_moves(orig[k].value, threshold, raise),
                ),
        decreases n - i,
    {
        let d = dice.remove(0);
        assert(d == orig[i as int]);
        let moves = if raise {
            d.value.lt(&threshold)
        } else {
            threshold.lt(&d.value)
        };
        if moves && contains_index(affected, i) {
            let previous = d.value;
            let mut adjustments = d.adjustments;
            let adj = if raise {
                DieAdjustment::Minimum { threshold, previous }
            } else {
                DieAdjustment::Maximum { threshold, previous }
            };
            adjustments.push(adj);
            out.push(
                DieResult {
                    value: threshold,
                    rolls: d.rolls,
                    kept: d.kept,
                    dropped: d.dropped,
                    origin: d.origin,
                    adjustments,
                },
            );
        } else {
            out.push(d);
        }
        assert(dice@ =~= orig.skip(i + 1));
        i += 1;
    }
    *dice = out;
}

/// Why an operation with `op` cannot apply to a set: only a keep and a drop
/// can; any other gives `Eval("Set operation <name> is not supported for
/// sets")`.
pub fn set_operation_error(op: SetOperator) -> (r: Option<RollatoriumError>)
    ensures
        (op == SetOperator::Keep || op == SetOperator::Drop) ==> r is None,
        !(op == SetOperator::Keep || op == SetOperator::Drop) ==> (r matches Some(
            RollatoriumError::Eval(m),
        ) && m@ == "Set operation "@ + operator_name(op) + " is not supported for sets"@),
{
    match op {
        SetOperator::Keep | SetOperator::Drop => None,
        _ => {
            let mut msg = owned("Set operation ");
            msg.append(operator_name_of(op));
            msg.append(" is not supported for sets");
            Some(RollatoriumError::Eval(msg))
        },
    }
}

/// `e2` is `e` with its `kept` flag set to `kept`.
pub open spec fn element_with_kept<T>(e: SetElement<T>, e2: SetElement<T>, kept: bool) -> bool {
    &&& e2.kept == kept
    &&& e2.value == e.value
    &&& e2.dropped == e.dropped
}

/// Applies a keep to a set: the first keep (`initialized` false) keeps
/// exactly the selected elements; a later one also keeps them, leaving the
/// elements kept before as they are.
pub fn keep_elements<T>(elements: &mut Vec<SetElement<T>>, selected: &Vec<usize>, initialized: bool)
    ensures
        final(elements)@.len() == old(elements)@.len(),
        forall|i: int|
            0 <= i < old(elements)@.len() ==> element_with_kept(
                #[trigger] old(elements)@[i],
                final(elements)@[i],
                selected@.contains(i as usize) || (initialized && old(elements)@[i].kept),
            ),
{
    let ghost orig = elements@;
    let n = elements.len();
    let mut out: Vec<SetElement<T>> = Vec::new();
    let mut i: usize = 0;
    while i < n
        invariant
            n == orig.len(),
            i <= n,
            elements@ == orig.skip(i as int),
            out@.len() == i,
            forall|k: int|
                0 <= k < i ==> element_with_kept(
                    #[trigger] orig[k],
                    out@[k],
                    selected@.contains(k as usize) || (initialized && orig[k].kept),
                ),
        decreases n - i,
    {
        let e = elements.remove(0);
        assert(e == orig[i as int]);
        let keep = contains_index(selected, i) || (initialized && e.kept);
        out.push(SetElement { value: e.value, kept: keep, dropped: e.dropped });
        assert(elements@ =~= orig.skip(i + 1));
        i += 1;
    }
    *elements = out;
}

/// Drops the selected elements of a set; the others stay as they are.
pub fn drop_elements<T>(elements: &mut Vec<SetElement<T>>, selected: &Vec<usize>)
    ensures
        final(elements)@.len() == old(elements)@.len(),
        forall|i: int|
            0 <= i < old(elements)@.len() ==> element_with_kept(
                #[trigger] old(elements)@[i],
                final(elements)@[i],
                old(elements)@[i].kept && !selected@.contains(i as usize),
            ),
{
    let ghost orig = elements@;
    let n = elements.len();
    let mut out: Vec<SetElement<T>> = Vec::new();
    let mut i: usize = 0;
    while i < n
        invariant
            n == orig.len(),
            i <= n,
            elements@ == orig.skip(i as int),
            out@.len() == i,
            forall|k: int|
                0 <= k < i ==> element_with_kept(
                    #[trigger] orig[k],
                    out@[k],
                    orig[k].kept && !selected@.contains(k as usize),
                ),
        decreases n - i,
    {
        let e = elements.remove(0);
        assert(e == orig[i as int]);
        let keep = e.kept && !contains_index(selected, i);
        out.push(SetElement { value: e.value, kept: keep, dropped: e.dropped });
        assert(elements@ =~= orig.skip(i + 1));
        i += 1;
    }
    *elements = out;
}

/// How many entries of `s` are true.
pub open spec fn count_true(s: Seq<bool>) -> nat
    decreases s.len(),
{
    if s.len() == 0 {
        0
    } else {
        count_true(s.drop_last()) + if s.last() {
            1nat
        } else {
            0nat
        }
    }
}

/// The indices below `n` of the true entries of `eligible`.
pub open spec fn true_indices(eligible: Seq<bool>, n: int) -> Set<usize> {
    Set::new(|k: usize| (k as int) < n && eligible[k as int])
}

proof fn lemma_true_indices(eligible: Seq<bool>, n: int)
    requires
        0 <= n <= eligible.len(),
        eligible.len() <= usize::MAX + 1,
    ensures
        true_indices(eligible, n).finite(),
        true_indices(eligible, n).len() == count_true(eligible.take(n)),
    decreases n,
{
    if n == 0 {
        assert(true_indices(eligible, 0) =~= Set::<usize>::empty());
        assert(eligible.take(0).len() == 0);
    } else {
        lemma_true_indices(eligible, n - 1);
        let prev = true_indices(eligible, n - 1);
        let last = (n - 1) as usize;
        assert(eligible.take(n).drop_last() =~= eligible.take(n - 1));
        assert(eligible.take(n).last() == eligible[n - 1]);
        if eligible[n - 1] {
            assert(true_indices(eligible, n) =~= prev.insert(last));
            assert(!prev.contains(last));
        } else {
            assert(true_indices(eligible, n) =~= prev);
        }
    }
}

/// A ranked selection of `count` entries (the highest or the lowest) picks
/// exactly `count` entries, or every eligible entry when there are fewer:
/// `4d6kh3` keeps three dice and drops one.
pub proof fn lemma_ranked_selection_size(
    values: Seq<Number>,
    eligible: Seq<bool>,
    count: nat,
    highest: bool,
    r: Seq<usize>,
)
    requires
        values.len() == eligible.len(),
        values.len() <= usize::MAX,
        is_ranked_selection(values, eligible, count, highest, r),
    ensures
        r.len() == if count <= count_true(eligible) {
            count
        } else {
            count_true(eligible)
        },
{
    let n = values.len() as int;
    let all = true_indices(eligible, n);
    lemma_true_indices(eligible, n);
    assert(eligible.take(n) =~= eligible);
    assert(r.no_duplicates()) by {
        assert forall|a: int, b: int| 0 <= a < r.len() && 0 <= b < r.len() && a != b implies r[a]
            != r[b] by {
            if a < b {
                assert(ranks_before(values, highest, r[a] as int, r[b] as int));
            } else {
                assert(ranks_before(values, highest, r[b] as int, r[a] as int));
            }
        }
    }
    r.unique_seq_to_set();
    assert(r.to_set().subset_of(all)) by {
        assert forall|x: usize| r.to_set().contains(x) implies all.contains(x) by {
            let a = choose|a: int| 0 <= a < r.len() && r[a] == x;
            assert(eligible[r[a] as int]);
        }
    }
    vstd::set_lib::lemma_len_subset(r.to_set(), all);
    if r.len() < count {
        assert(all.subset_of(r.to_set())) by {
            assert forall|x: usize| all.contains(x) implies r.to_set().contains(x) by {
                assert(eligible[x as int]);
                assert(r.contains(x));
            }
        }
        vstd::set_lib::lemma_len_subset(all, r.to_set());
    }
}

/// A minimum clamp leaves each die it applies to at or above the threshold.
pub proof fn lemma_minimum_bound(d: DieResult, d2: DieResult, threshold: Number)
    requires
        !is_nan(d.value),
        !is_nan(threshold),
        clamped(d, d2, threshold, true, clamp_moves(d.value, threshold, true)),
    ensures
        num_le(threshold, d2.value),
{
}

/// A maximum clamp leaves each die it applies to at or below the threshold.
pub proof fn lemma_maximum_bound(d: DieResult, d2: DieResult, threshold: Number)
    requires
        !is_nan(d.value),
        !is_nan(threshold),
        clamped(d, d2, threshold, false, clamp_moves(d.value, threshold, false)),
    ensures
        num_le(d2.value, threshold),
{
}

/// A minimum `lo` followed by a maximum `hi`, with `lo <= hi`, leaves each
/// die they apply to between them: `2d6mi3ma5` gives dice from 3 to 5.
pub proof fn lemma_minimum_then_maximum(
    d: DieResult,
    d1: DieResult,
    d2: DieResult,
    lo: Number,
    hi: Number,
)
    requires
        !is_nan(d.value),
        !is_nan(lo),
        !is_nan(hi),
        num_le(lo, hi),
        clamped(d, d1, lo, true, clamp_moves(d.value, lo, true)),
        clamped(d1, d2, hi, false, clamp_moves(d1.value, hi, false)),
    ensures
        num_le(lo, d2.value),
        num_le(d2.value, hi),
{
}

} // verus!

verus! {

proof fn lemma_threshold_indices_contains(
    values: Seq<Number>,
    eligible: Seq<bool>,
    kind: SelectorKind,
    target: Number,
    n: nat,
    k: int,
)
    requires
        n <= values.len(),
        n <= eligible.len(),
        n <= usize::MAX + 1,
        0 <= k <= usize::MAX,
    ensures
        threshold_indices(values, eligible, kind, target, n).contains(k as usize) <==> (0 <= k < n
            && eligible[k] && threshold_holds(kind, values[k], target)),
        forall|a: int, b: int|
            0 <= a < b < threshold_indices(values, eligible, kind, target, n).len() ==> (
            #[trigger] threshold_indices(values, eligible, kind, target, n)[a])
                < #[trigger] threshold_indices(values, eligible, kind, target, n)[b],
        forall|a: int|
            0 <= a < threshold_indices(values, eligible, kind, target, n).len() ==> (
            #[trigger] threshold_indices(values, eligible, kind, target, n)[a]) < n,
    decreases n,
{
    if n > 0 {
        lemma_threshold_indices_contains(values, eligible, kind, target, (n - 1) as nat, k);
        let before = threshold_indices(values, eligible, kind, target, (n - 1) as nat);
        let now = threshold_indices(values, eligible, kind, target, n);
        if eligible[n - 1] && threshold_holds(kind, values[n - 1], target) {
            assert(now == before.push((n - 1) as usize));
            if now.contains(k as usize) {
                let j = choose|j: int| 0 <= j < now.len() && now[j] == k as usize;
                if j < before.len() {
                    assert(before.contains(k as usize));
                }
            }
            if before.contains(k as usize) {
                let j = choose|j: int| 0 <= j < before.len() && before[j] == k as usize;
                assert(now[j] == k as usize);
            }
            if k == n - 1 {
                assert(now[before.len() as int] == k as usize);
            }
        }
    }
}

/// A comparison selection on a pool picks, in pool order, exactly the kept
/// dice whose current value stands to the target as the selector asks:
/// `>` greater, `>=` greater or equal, `<` less, `<=` less or equal.
pub proof fn lemma_select_value_compares_values(
    dice: Seq<DieResult>,
    kind: SelectorKind,
    target: Number,
    r: Seq<usize>,
)
    requires
        dice.len() <= usize::MAX,
        r == threshold_indices(die_values(dice), die_kept(dice), kind, target, dice.len()),
    ensures
        forall|k: int|
            0 <= k < dice.len() ==> (r.contains(k as usize) <==> (#[trigger] dice[k]).kept && match kind {
                SelectorKind::GreaterThan => num_lt(target, dice[k].value),
                SelectorKind::GreaterThanOrEqual => num_le(target, dice[k].value),
                SelectorKind::LessThan => num_lt(dice[k].value, target),
                SelectorKind::LessThanOrEqual => num_le(dice[k].value, target),
                _ => false,
            }),
        forall|a: int| 0 <= a < r.len() ==> (#[trigger] r[a]) < dice.len(),
        forall|a: int, b: int| 0 <= a < b < r.len() ==> (#[trigger] r[a]) < #[trigger] r[b],
{
    assert forall|k: int| 0 <= k < dice.len() implies (r.contains(k as usize) <==> (
    #[trigger] dice[k]).kept && match kind {
        SelectorKind::GreaterThan => num_lt(target, dice[k].value),
        SelectorKind::GreaterThanOrEqual => num_le(target, dice[k].value),
        SelectorKind::LessThan => num_lt(dice[k].value, target),
        SelectorKind::LessThanOrEqual => num_le(dice[k].value, target),
        _ => false,
    }) by {
        lemma_threshold_indices_contains(die_values(dice), die_kept(dice), kind, target, dice.len(), k);
    }
    lemma_threshold_indices_contains(die_values(dice), die_kept(dice), kind, target, dice.len(), 0);
}

/// A highest (lowest) selection on a pool ranks the dice by their current
/// values: it picks only kept dice, from the highest (lowest) value on, and
/// every kept die it leaves has a value no higher (no lower) than each die
/// it picks.
pub proof fn lemma_ranked_dice_by_value(dice: Seq<DieResult>, count: nat, highest: bool, r: Seq<usize>)
    requires
        is_ranked_selection(die_values(dice), die_kept(dice), count, highest, r),
    ensures
        forall|a: int| 0 <= a < r.len() ==> r[a] < dice.len() && (#[trigger] dice[r[a] as int]).kept,
        forall|a: int, b: int|
            0 <= a < b < r.len() ==> if highest {
                order_key((#[trigger] dice[r[a] as int]).value) >= order_key(
                    (#[trigger] dice[r[b] as int]).value,
                )
            } else {
                order_key(dice[r[a] as int].value) <= order_key(dice[r[b] as int].value)
            },
        forall|k: int, a: int|
            0 <= k < dice.len() && (#[trigger] dice[k]).kept && !r.contains(k as usize) && 0 <= a
                < r.len() ==> if highest {
                order_key(dice[k].value) <= order_key((#[trigger] dice[r[a] as int]).value)
            } else {
                order_key(dice[k].value) >= order_key(dice[r[a] as int].value)
            },
{
    assert forall|a: int| 0 <= a < r.len() implies r[a] < dice.len() && (
    #[trigger] dice[r[a] as int]).kept by {
        assert(die_kept(dice)[r[a] as int]);
    }
    assert forall|a: int, b: int| 0 <= a < b < r.len() implies if highest {
        order_key((#[trigger] dice[r[a] as int]).value) >= order_key(
            (#[trigger] dice[r[b] as int]).value,
        )
    } else {
        order_key(dice[r[a] as int].value) <= order_key(dice[r[b] as int].value)
    } by {
        assert(ranks_before(die_values(dice), highest, r[a] as int, r[b] as int));
    }
    assert forall|k: int, a: int|
        0 <= k < dice.len() && (#[trigger] dice[k]).kept && !r.contains(k as usize) && 0 <= a
            < r.len() implies if highest {
        order_key(dice[k].value) <= order_key((#[trigger] dice[r[a] as int]).value)
    } else {
        order_key(dice[k].value) >= order_key(dice[r[a] as int].value)
    } by {
        assert(die_kept(dice)[k]);
        assert(ranks_before(die_values(dice), highest, r[a] as int, k));
    }
}

/// A highest (lowest) selection on a set, kept elements only when
/// `only_kept`, ranks the elements by their totals: it picks only elements
/// it may (kept ones, when `only_kept`), and every such element it leaves
/// has a total no higher (no lower) than each element it picks.
pub proof fn lemma_ranked_elements_by_total<T>(
    elements: Seq<SetElement<T>>,
    count: nat,
    highest: bool,
    only_kept: bool,
    r: Seq<usize>,
)
    requires
        is_ranked_selection(element_totals(elements), element_eligible(elements, only_kept), count, highest, r),
    ensures
        forall|a: int|
            0 <= a < r.len() ==> r[a] < elements.len() && (!only_kept || (
            #[trigger] elements[r[a] as int]).kept),
        forall|k: int, a: int|
            0 <= k < elements.len() && (!only_kept || (#[trigger] elements[k]).kept) && !r.contains(
                k as usize,
            ) && 0 <= a < r.len() ==> if highest {
                order_key(elements[k].value.total) <= order_key(
                    (#[trigger] elements[r[a] as int]).value.total,
                )
            } else {
                order_key(elements[k].value.total) >= order_key(elements[r[a] as int].value.total)
            },
{
    assert forall|a: int| 0 <= a < r.len() implies r[a] < elements.len() && (!only_kept || (
    #[trigger] elements[r[a] as int]).kept) by {
        assert(element_eligible(elements, only_kept)[r[a] as int]);
    }
    assert forall|k: int, a: int|
        0 <= k < elements.len() && (!only_kept || (#[trigger] elements[k]).kept) && !r.contains(
            k as usize,
        ) && 0 <= a < r.len() implies if highest {
        order_key(elements[k].value.total) <= order_key(
            (#[trigger] elements[r[a] as int]).value.total,
        )
    } else {
        order_key(elements[k].value.total) >= order_key(elements[r[a] as int].value.total)
    } by {
        assert(element_eligible(elements, only_kept)[k]);
        assert(ranks_before(element_totals(elements), highest, r[a] as int, k));
    }
}

/// A comparison selection on a set, kept elements only when `only_kept`,
/// picks exactly the elements it may (kept ones, when `only_kept`) whose
/// total stands to the target as the selector asks.
pub proof fn lemma_select_set_value_compares_totals<T>(
    elements: Seq<SetElement<T>>,
    kind: SelectorKind,
    target: Number,
    only_kept: bool,
    r: Seq<usize>,
)
    requires
        elements.len() <= usize::MAX,
        r == threshold_indices(
            element_totals(elements),
            element_eligible(elements, only_kept),
            kind,
            target,
            elements.len(),
        ),
    ensures
        forall|k: int|
            0 <= k < elements.len() ==> (r.contains(k as usize) <==> (!only_kept
                || (#[trigger] elements[k]).kept) && match kind {
                SelectorKind::GreaterThan => num_lt(target, elements[k].value.total),
                SelectorKind::GreaterThanOrEqual => num_le(target, elements[k].value.total),
                SelectorKind::LessThan => num_lt(elements[k].value.total, target),
                SelectorKind::LessThanOrEqual => num_le(elements[k].value.total, target),
                _ => false,
            }),
{
    assert forall|k: int| 0 <= k < elements.len() implies (r.contains(k as usize) <==> (!only_kept
        || (#[trigger] elements[k]).kept) && match kind {
        SelectorKind::GreaterThan => num_lt(target, elements[k].value.total),
        SelectorKind::GreaterThanOrEqual => num_le(target, elements[k].value.total),
        SelectorKind::LessThan => num_lt(elements[k].value.total, target),
        SelectorKind::LessThanOrEqual => num_le(elements[k].value.total, target),
        _ => false,
    }) by {
        lemma_threshold_indices_contains(
            element_totals(elements),
            element_eligible(elements, only_kept),
            kind,
            target,
            elements.len(),
            k,
        );
    }
}

} // verus!
