//! Applying an operation to a pool of dice, one step at a time.
//!
//! An operation such as a reroll or an explosion alternates between what it
//! decides and what only the evaluator can do: evaluating the targets of the
//! selectors (arithmetic on floating-point totals) and rolling a die (a random
//! draw). A [`PoolOperation`] holds the decisions. [`PoolOperation::start`]
//! gives the first [`Request`]; the evaluator answers it, and each call of
//! [`PoolOperation::step`] takes the [`Answer`], changes the pool as the
//! operation prescribes and gives the next request, until [`Request::Done`]
//! or [`Request::Fail`].
use vstd::prelude::*;

use crate::ast::{SelectorKind, SetOperation, SetOperator};
use crate::error::RollatoriumError;
use crate::eval::{
    clamp_applied, clamp_dice, clamp_moves, clamped, contains_index, drop_applied, drop_dice,
    keep_applied, keep_dice, kept_indices, kept_indices_spec, DieOrigin, DieResult,
};
use crate::number::{is_nan, num_le, Number};
use crate::text::owned;
use vstd::string::StringExecFns;

verus! {

/// What an operation on a pool asks of the evaluator next.
#[derive(Debug)]
pub enum Request {
    /// The indices, in increasing order and each once, of the dice that the
    /// operation's selectors from the one at this position on pick.
    Select(usize),
    /// The value that a new roll of the pool's die shows.
    Roll,
    /// The value of the first selector's target.
    Threshold,
    /// The operation is applied.
    Done,
    /// The operation cannot be applied.
    Fail(RollatoriumError),
}

/// The evaluator's answer to a [`Request`].
#[derive(Debug)]
pub enum Answer {
    /// The dice that the selectors picked.
    Selected(Vec<usize>),
    /// The value that a new roll showed.
    Rolled(Number),
    /// The value of the first selector's target.
    Threshold(Number),
}

/// A [`Request`] as the contracts describe it; a failure is an
/// `Eval` error with the message it holds.
pub enum Requested {
    /// [`Request::Select`].
    Select(nat),
    /// [`Request::Roll`].
    Roll,
    /// [`Request::Threshold`].
    Threshold,
    /// [`Request::Done`].
    Done,
    /// [`Request::Fail`] with an `Eval` error holding this message.
    Fail(Seq<char>),
}

/// `r` is the request that `e` describes.
pub open spec fn request_is(r: Request, e: Requested) -> bool {
    match e {
        Requested::Select(k) => r matches Request::Select(j) && j == k,
        Requested::Roll => r is Roll,
        Requested::Threshold => r is Threshold,
        Requested::Done => r is Done,
        Requested::Fail(m) => r matches Request::Fail(RollatoriumError::Eval(s)) && s@ == m,
    }
}

/// Where an operation on a pool stands.
pub enum Phase {
    /// It waits for the dice that all its selectors pick.
    Selecting,
    /// It rerolls the dice at `pending`, one roll each in order, and waits
    /// for the roll of the one at `next`; a reroll `once` then ends, a full
    /// reroll selects again.
    Rerolling { pending: Seq<usize>, next: nat, once: bool },
    /// It adds new dice and waits for the roll of one of `left` more.
    Adding { left: nat },
    /// It explodes the dice listed in `queue`, `next` of which have exploded;
    /// it waits for the roll of the last of those (`checking` false) or for
    /// the selection that decides whether the die just added explodes too.
    Exploding { queue: Seq<usize>, next: nat, checking: bool },
    /// It waits for the threshold of a clamp.
    Thresholding,
    /// It waits for the dice that the selectors after the first pick, to
    /// clamp them to `threshold`.
    Clamping { threshold: Number },
    /// It is over.
    Finished,
}

/// The state of a [`PoolOperation`]: its operator, how many selectors it
/// has, and where it stands.
pub struct OperationState {
    pub operator: SetOperator,
    pub selectors: nat,
    pub phase: Phase,
}

/// The name of an operator, as its `Debug` form writes it.
pub open spec fn operator_name(op: SetOperator) -> Seq<char> {
    match op {
        SetOperator::Keep => "Keep"@,
        SetOperator::Drop => "Drop"@,
        SetOperator::Reroll => "Reroll"@,
        SetOperator::RerollOnce => "RerollOnce"@,
        SetOperator::RerollAdd => "RerollAdd"@,
        SetOperator::Explode => "Explode"@,
        SetOperator::ExplodeCompound => "ExplodeCompound"@,
        SetOperator::ExplodePenetrate => "ExplodePenetrate"@,
        SetOperator::Penetrate => "Penetrate"@,
        SetOperator::Minimum => "Minimum"@,
        SetOperator::Maximum => "Maximum"@,
        SetOperator::CountSuccess => "CountSuccess"@,
        SetOperator::CountFailure => "CountFailure"@,
    }
}

/// The name of `op`, as its `Debug` form writes it.
pub fn operator_name_of(op: SetOperator) -> (r: &'static str)
    ensures
        r@ == operator_name(op),
{
    match op {
        SetOperator::Keep => "Keep",
        SetOperator::Drop => "Drop",
        SetOperator::Reroll => "Reroll",
        SetOperator::RerollOnce => "RerollOnce",
        SetOperator::RerollAdd => "RerollAdd",
        SetOperator::Explode => "Explode",
        SetOperator::ExplodeCompound => "ExplodeCompound",
        SetOperator::ExplodePenetrate => "ExplodePenetrate",
        SetOperator::Penetrate => "Penetrate",
        SetOperator::Minimum => "Minimum",
        SetOperator::Maximum => "Maximum",
        SetOperator::CountSuccess => "CountSuccess",
        SetOperator::CountFailure => "CountFailure",
    }
}

/// Whether a pool operation with `op` works by a selection of all its
/// selectors: keep, drop, the rerolls and explode.
pub open spec fn selects_first(op: SetOperator) -> bool {
    ||| op == SetOperator::Keep
    ||| op == SetOperator::Drop
    ||| op == SetOperator::Reroll
    ||| op == SetOperator::RerollOnce
    ||| op == SetOperator::RerollAdd
    ||| op == SetOperator::Explode
}

/// How an operation with `op` and `selectors` selectors, the first of kind
/// Literal when `first_literal`, starts: where it stands and what it asks.
pub open spec fn start_of(op: SetOperator, selectors: nat, first_literal: bool) -> (Phase, Requested) {
    if selects_first(op) {
        (Phase::Selecting, Requested::Select(0))
    } else if op == SetOperator::Minimum || op == SetOperator::Maximum {
        if selectors == 0 {
            (Phase::Finished, Requested::Fail(operator_name(op) + " operation requires a selector"@))
        } else if !first_literal {
            (Phase::Finished, Requested::Fail("selector target must be positive"@))
        } else {
            (Phase::Thresholding, Requested::Threshold)
        }
    } else {
        (
            Phase::Finished,
            Requested::Fail(
                "Set operation "@ + operator_name(op) + " is not supported in the evaluator"@,
            ),
        )
    }
}

/// What an operation asks for while it stands at `s`.
pub open spec fn awaited(s: OperationState) -> Requested {
    match s.phase {
        Phase::Selecting => Requested::Select(0),
        Phase::Rerolling { .. } => Requested::Roll,
        Phase::Adding { .. } => Requested::Roll,
        Phase::Exploding { checking, .. } => if checking {
            Requested::Select(0)
        } else {
            Requested::Roll
        },
        Phase::Thresholding => Requested::Threshold,
        Phase::Clamping { .. } => Requested::Select(1),
        Phase::Finished => Requested::Done,
    }
}

/// The entries of `s` below `n`, in order.
pub open spec fn indices_below(s: Seq<usize>, n: nat) -> Seq<usize>
    decreases s.len(),
{
    if s.len() == 0 {
        Seq::empty()
    } else {
        let before = indices_below(s.drop_last(), n);
        if s.last() < n {
            before.push(s.last())
        } else {
            before
        }
    }
}

/// `d2` is the die `d` rerolled to `v`: it shows `v`, with `v` added to its
/// rolls; nothing else changes.
pub open spec fn rerolled(d: DieResult, d2: DieResult, v: Number) -> bool {
    &&& d2.value == v
    &&& d2.rolls@ == d.rolls@.push(v)
    &&& d2.kept == d.kept
    &&& d2.dropped == d.dropped
    &&& d2.origin == d.origin
    &&& d2.adjustments == d.adjustments
}

/// `dice2` is `dice` with the die at `idx` rerolled to `v` (when there is
/// one).
pub open spec fn die_rerolled(dice: Seq<DieResult>, dice2: Seq<DieResult>, idx: int, v: Number) -> bool {
    &&& dice2.len() == dice.len()
    &&& forall|j: int| 0 <= j < dice.len() && j != idx ==> #[trigger] dice2[j] == dice[j]
    &&& 0 <= idx < dice.len() ==> rerolled(dice[idx], dice2[idx], v)
}

/// `d` is a new die from `origin` that shows `v`: kept, rolled once, not
/// clamped.
pub open spec fn fresh_die(d: DieResult, v: Number, origin: DieOrigin) -> bool {
    &&& d.value == v
    &&& d.rolls@ == seq![v]
    &&& d.kept
    &&& !d.dropped
    &&& d.origin == origin
    &&& d.adjustments@.len() == 0
}

/// `dice2` is `dice` with a new die from `origin` that shows `v` added at the
/// end.
pub open spec fn die_added(dice: Seq<DieResult>, dice2: Seq<DieResult>, v: Number, origin: DieOrigin) -> bool {
    &&& dice2.len() == dice.len() + 1
    &&& dice2.take(dice.len() as int) == dice
    &&& fresh_die(dice2.last(), v, origin)
}

/// The step from the selection `picked` of all the selectors of an operation
/// with `op` on `dice`: a keep or a drop is applied; a reroll rerolls the
/// picked dice of the pool, one roll each; a reroll-and-add adds a die for
/// each pick; an explosion adds a die for each pick and for each added die
/// that the selectors pick in turn.
pub open spec fn selection_step(
    op: SetOperator,
    dice: Seq<DieResult>,
    picked: Seq<usize>,
    phase2: Phase,
    dice2: Seq<DieResult>,
    r: Request,
) -> bool {
    if op == SetOperator::Keep {
        keep_applied(dice, dice2, picked) && phase2 == Phase::Finished && request_is(r, Requested::Done)
    } else if op == SetOperator::Drop {
        drop_applied(dice, dice2, picked) && phase2 == Phase::Finished && request_is(r, Requested::Done)
    } else if op == SetOperator::Reroll || op == SetOperator::RerollOnce {
        let pending = indices_below(picked, dice.len());
        &&& dice2 == dice
        &&& if pending.len() == 0 {
            phase2 == Phase::Finished && request_is(r, Requested::Done)
        } else {
            &&& phase2 == Phase::Rerolling {
                pending,
                next: 0,
                once: op == SetOperator::RerollOnce,
            }
            &&& request_is(r, Requested::Roll)
        }
    } else if op == SetOperator::RerollAdd {
        &&& dice2 == dice
        &&& if picked.len() == 0 {
            phase2 == Phase::Finished && request_is(r, Requested::Done)
        } else {
            phase2 == Phase::Adding { left: picked.len() } && request_is(r, Requested::Roll)
        }
    } else if op == SetOperator::Explode {
        &&& dice2 == dice
        &&& if picked.len() == 0 {
            phase2 == Phase::Finished && request_is(r, Requested::Done)
        } else {
            &&& phase2 == Phase::Exploding { queue: picked, next: 1, checking: false }
            &&& request_is(r, Requested::Roll)
        }
    } else {
        dice2 == dice && phase2 == Phase::Finished && request_is(r, Requested::Done)
    }
}

/// The step from the threshold `t` of a clamp with `op` (a minimum or a
/// maximum) and `selectors` selectors on `dice`: a minimum that is not
/// positive fails; with more selectors the clamp waits for their pick;
/// otherwise it clamps the kept dice.
pub open spec fn threshold_step(
    op: SetOperator,
    selectors: nat,
    dice: Seq<DieResult>,
    t: Number,
    phase2: Phase,
    dice2: Seq<DieResult>,
    r: Request,
) -> bool {
    if op == SetOperator::Minimum && num_le(t, Number { bits: 0 }) {
        &&& dice2 == dice
        &&& phase2 == Phase::Finished
        &&& request_is(r, Requested::Fail("selector target must be positive"@))
    } else if selectors > 1 {
        dice2 == dice && phase2 == Phase::Clamping { threshold: t } && request_is(r, Requested::Select(1))
    } else {
        &&& clamp_applied(
            dice,
            dice2,
            kept_indices_spec(dice, dice.len()),
            t,
            op == SetOperator::Minimum,
        )
        &&& phase2 == Phase::Finished
        &&& request_is(r, Requested::Done)
    }
}

/// One step of an operation: from state `s` and pool `dice`, the answer
/// `answer` leads to state `s2`, pool `dice2` and request `r`. An answer that
/// does not fit what the operation waits for changes nothing and repeats the
/// request.
pub open spec fn advances(
    s: OperationState,
    dice: Seq<DieResult>,
    answer: Answer,
    s2: OperationState,
    dice2: Seq<DieResult>,
    r: Request,
) -> bool {
    let unchanged = s2.phase == s.phase && dice2 == dice && request_is(r, awaited(s));
    &&& s2.operator == s.operator
    &&& s2.selectors == s.selectors
    &&& match s.phase {
        Phase::Selecting => match answer {
            Answer::Selected(picked) => selection_step(s.operator, dice, picked@, s2.phase, dice2, r),
            _ => unchanged,
        },
        Phase::Rerolling { pending, next, once } => match answer {
            Answer::Rolled(v) => {
                &&& die_rerolled(dice, dice2, pending[next as int] as int, v)
                &&& if next + 1 < pending.len() {
                    &&& s2.phase == Phase::Rerolling { pending, next: next + 1, once }
                    &&& request_is(r, Requested::Roll)
                } else if once {
                    s2.phase == Phase::Finished && request_is(r, Requested::Done)
                } else {
                    s2.phase == Phase::Selecting && request_is(r, Requested::Select(0))
                }
            },
            _ => unchanged,
        },
        Phase::Adding { left } => match answer {
            Answer::Rolled(v) => {
                &&& die_added(dice, dice2, v, DieOrigin::RerollAdd)
                &&& if left > 1 {
                    s2.phase == Phase::Adding { left: (left - 1) as nat } && request_is(r, Requested::Roll)
                } else {
                    s2.phase == Phase::Finished && request_is(r, Requested::Done)
                }
            },
            _ => unchanged,
        },
        Phase::Exploding { queue, next, checking } => if !checking {
            match answer {
                Answer::Rolled(v) => {
                    &&& die_added(dice, dice2, v, DieOrigin::Explosion)
                    &&& s2.phase == Phase::Exploding { queue, next, checking: true }
                    &&& request_is(r, Requested::Select(0))
                },
                _ => unchanged,
            }
        } else {
            match answer {
                Answer::Selected(picked) => {
                    let last = dice.len() - 1;
                    let queue2 = if dice.len() > 0 && picked@.contains(last as usize) {
                        queue.push(last as usize)
                    } else {
                        queue
                    };
                    &&& dice2 == dice
                    &&& if next < queue2.len() {
                        &&& s2.phase == Phase::Exploding { queue: queue2, next: next + 1, checking: false }
                        &&& request_is(r, Requested::Roll)
                    } else {
                        s2.phase == Phase::Finished && request_is(r, Requested::Done)
                    }
                },
                _ => unchanged,
            }
        },
        Phase::Thresholding => match answer {
            Answer::Threshold(t) => threshold_step(s.operator, s.selectors, dice, t, s2.phase, dice2, r),
            _ => unchanged,
        },
        Phase::Clamping { threshold } => match answer {
            Answer::Selected(picked) => {
                &&& clamp_applied(dice, dice2, picked@, threshold, s.operator == SetOperator::Minimum)
                &&& s2.phase == Phase::Finished
                &&& request_is(r, Requested::Done)
            },
            _ => unchanged,
        },
        Phase::Finished => unchanged,
    }
}

enum Stage {
    Selecting,
    Rerolling { pending: Vec<usize>, next: usize, once: bool },
    Adding { left: usize },
    Exploding { queue: Vec<usize>, next: usize, checking: bool },
    Thresholding,
    Clamping { threshold: Number },
    Finished,
}

impl Stage {
    spec fn phase(&self) -> Phase {
        match *self {
            Stage::Selecting => Phase::Selecting,
            Stage::Rerolling { pending, next, once } => Phase::Rerolling {
                pending: pending@,
                next: next as nat,
                once,
            },
            Stage::Adding { left } => Phase::Adding { left: left as nat },
            Stage::Exploding { queue, next, checking } => Phase::Exploding {
                queue: queue@,
                next: next as nat,
                checking,
            },
            Stage::Thresholding => Phase::Thresholding,
            Stage::Clamping { threshold } => Phase::Clamping { threshold },
            Stage::Finished => Phase::Finished,
        }
    }
}

/// An operation on a pool of dice in progress.
pub struct PoolOperation {
    operator: SetOperator,
    selectors: usize,
    stage: Stage,
}

impl View for PoolOperation {
    type V = OperationState;

    closed spec fn view(&self) -> OperationState {
        OperationState {
            operator: self.operator,
            selectors: self.selectors as nat,
            phase: self.stage.phase(),
        }
    }
}

/// The entries of `s` below `n`, in order.
fn below(s: &Vec<usize>, n: usize) -> (r: Vec<usize>)
    ensures
        r@ == indices_below(s@, n as nat),
{
    let mut out: Vec<usize> = Vec::new();
    let mut i: usize = 0;
    while i < s.len()
        invariant
            i <= s@.len(),
            out@ == indices_below(s@.take(i as int), n as nat),
        decreases s@.len() - i,
    {
        proof {
            assert(s@.take(i + 1).drop_last() =~= s@.take(i as int));
            assert(s@.take(i + 1).last() == s@[i as int]);
        }
        if s[i] < n {
            out.push(s[i]);
        }
        i += 1;
    }
    proof {
        assert(s@.take(s@.len() as int) =~= s@);
    }
    out
}

/// Rerolls the die at `idx` (when there is one) to `v`.
fn reroll_at(dice: &mut Vec<DieResult>, idx: usize, v: Number)
    ensures
        die_rerolled(old(dice)@, final(dice)@, idx as int, v),
{
    if idx < dice.len() {
        let d = dice.remove(idx);
        let DieResult { value: _, mut rolls, kept, dropped, origin, adjustments } = d;
        rolls.push(v);
        let d2 = DieResult { value: v, rolls, kept, dropped, origin, adjustments };
        dice.insert(idx, d2);
        proof {
            assert(dice@ =~= old(dice)@.update(idx as int, d2));
        }
    }
}

/// Adds a new die from `origin` that shows `v` at the end of the pool.
fn add_die(dice: &mut Vec<DieResult>, v: Number, origin: DieOrigin)
    ensures
        die_added(old(dice)@, final(dice)@, v, origin),
{
    dice.push(DieResult::new(v, origin));
    proof {
        assert(dice@.take(old(dice)@.len() as int) =~= old(dice)@);
    }
}

impl PoolOperation {
    /// A step leaves the stage well formed: rerolling waits for a pending
    /// die, adding for at least one more, exploding for a die in its queue.
    #[verifier::type_invariant]
    closed spec fn well_formed(&self) -> bool {
        match self.stage {
            Stage::Rerolling { pending, next, .. } => next < pending@.len(),
            Stage::Adding { left } => left >= 1,
            Stage::Exploding { queue, next, .. } => 1 <= next <= queue@.len(),
            _ => true,
        }
    }

    /// Starts `operation` on a pool: a keep, a drop, a reroll, a
    /// reroll-and-add or an explosion asks for the dice its selectors pick;
    /// a minimum or a maximum checks that it has a selector, the first of
    /// kind literal, and asks for its threshold; any other operation fails.
    pub fn start<T>(operation: &SetOperation<T>) -> (r: (PoolOperation, Request))
        ensures
            ({
                let first_literal = operation.selectors@.len() > 0 && operation.selectors@[0].kind
                    == SelectorKind::Literal;
                let (phase, req) = start_of(operation.operator, operation.selectors@.len(), first_literal);
                &&& r.0@ == OperationState {
                    operator: operation.operator,
                    selectors: operation.selectors@.len(),
                    phase,
                }
                &&& request_is(r.1, req)
            }),
    {
        let op = operation.operator;
        let n = operation.selectors.len();
        match op {
            SetOperator::Keep | SetOperator::Drop | SetOperator::Reroll | SetOperator::RerollOnce
            | SetOperator::RerollAdd | SetOperator::Explode => {
                (PoolOperation { operator: op, selectors: n, stage: Stage::Selecting }, Request::Select(0))
            },
            SetOperator::Minimum | SetOperator::Maximum => {
                let finished = PoolOperation { operator: op, selectors: n, stage: Stage::Finished };
                if n == 0 {
                    let mut msg = owned(operator_name_of(op));
                    msg.append(" operation requires a selector");
                    (finished, Request::Fail(RollatoriumError::Eval(msg)))
                } else if operation.selectors[0].kind != SelectorKind::Literal {
                    let msg = owned("selector target must be positive");
                    (finished, Request::Fail(RollatoriumError::Eval(msg)))
                } else {
                    (PoolOperation { operator: op, selectors: n, stage: Stage::Thresholding }, Request::Threshold)
                }
            },
            _ => {
                let mut msg = owned("Set operation ");
                msg.append(operator_name_of(op));
                msg.append(" is not supported in the evaluator");
                (
                    PoolOperation { operator: op, selectors: n, stage: Stage::Finished },
                    Request::Fail(RollatoriumError::Eval(msg)),
                )
            },
        }
    }

    /// The request that the operation waits on.
    fn awaited_request(&self) -> (r: Request)
        ensures
            request_is(r, awaited(self@)),
    {
        match &self.stage {
            Stage::Selecting => Request::Select(0),
            Stage::Rerolling { .. } => Request::Roll,
            Stage::Adding { .. } => Request::Roll,
            Stage::Exploding { checking, .. } => if *checking {
                Request::Select(0)
            } else {
                Request::Roll
            },
            Stage::Thresholding => Request::Threshold,
            Stage::Clamping { .. } => Request::Select(1),
            Stage::Finished => Request::Done,
        }
    }

    /// Takes the evaluator's answer to the last request, changes the pool as
    /// the operation prescribes (see [`advances`]) and gives the next
    /// request.
    pub fn step(&mut self, dice: &mut Vec<DieResult>, answer: Answer) -> (r: Request)
        ensures
            advances(old(self)@, old(dice)@, answer, final(self)@, final(dice)@, r),
    {
        proof {
            use_type_invariant(&*self);
        }
        let op = self.operator;
        let mut stage = Stage::Finished;
        std::mem::swap(&mut stage, &mut self.stage);
        match stage {
            Stage::Selecting => match answer {
                Answer::Selected(picked) => {
                    if op == SetOperator::Keep {
                        keep_dice(dice, &picked);
                        Request::Done
                    } else if op == SetOperator::Drop {
                        drop_dice(dice, &picked);
                        Request::Done
                    } else if op == SetOperator::Reroll || op == SetOperator::RerollOnce {
                        let pending = below(&picked, dice.len());
                        if pending.len() == 0 {
                            Request::Done
                        } else {
                            self.stage = Stage::Rerolling {
                                pending,
                                next: 0,
                                once: op == SetOperator::RerollOnce,
                            };
                            Request::Roll
                        }
                    } else if op == SetOperator::RerollAdd {
                        if picked.len() == 0 {
                            Request::Done
                        } else {
                            self.stage = Stage::Adding { left: picked.len() };
                            Request::Roll
                        }
                    } else if op == SetOperator::Explode {
                        if picked.len() == 0 {
                            Request::Done
                        } else {
                            self.stage = Stage::Exploding { queue: picked, next: 1, checking: false };
                            Request::Roll
                        }
                    } else {
                        Request::Done
                    }
                },
                _ => {
                    self.stage = Stage::Selecting;
                    Request::Select(0)
                },
            },
            Stage::Rerolling { pending, next, once } => match answer {
                Answer::Rolled(v) => {
                    reroll_at(dice, pending[next], v);
                    if next < pending.len() - 1 {
                        self.stage = Stage::Rerolling { pending, next: next + 1, once };
                        Request::Roll
                    } else if once {
                        Request::Done
                    } else {
                        self.stage = Stage::Selecting;
                        Request::Select(0)
                    }
                },
                _ => {
                    self.stage = Stage::Rerolling { pending, next, once };
                    Request::Roll
                },
            },
            Stage::Adding { left } => match answer {
                Answer::Rolled(v) => {
                    add_die(dice, v, DieOrigin::RerollAdd);
                    if left > 1 {
                        self.stage = Stage::Adding { left: left - 1 };
                        Request::Roll
                    } else {
                        Request::Done
                    }
                },
                _ => {
                    self.stage = Stage::Adding { left };
                    Request::Roll
                },
            },
            Stage::Exploding { queue, next, checking } => {
                if !checking {
                    match answer {
                        Answer::Rolled(v) => {
                            add_die(dice, v, DieOrigin::Explosion);
                            self.stage = Stage::Exploding { queue, next, checking: true };
                            Request::Select(0)
                        },
                        _ => {
                            self.stage = Stage::Exploding { queue, next, checking };
                            Request::Roll
                        },
                    }
                } else {
                    match answer {
                        Answer::Selected(picked) => {
                            let mut queue = queue;
                            let n = dice.len();
                            if n > 0 && contains_index(&picked, n - 1) {
                                queue.push(n - 1);
                            }
                            if next < queue.len() {
                                self.stage = Stage::Exploding { queue, next: next + 1, checking: false };
                                Request::Roll
                            } else {
                                Request::Done
                            }
                        },
                        _ => {
                            self.stage = Stage::Exploding { queue, next, checking };
                            Request::Select(0)
                        },
                    }
                }
            },
            Stage::Thresholding => match answer {
                Answer::Threshold(t) => {
                    if op == SetOperator::Minimum && t.le(&Number { bits: 0 }) {
                        Request::Fail(RollatoriumError::Eval(owned("selector target must be positive")))
                    } else if self.selectors > 1 {
                        self.stage = Stage::Clamping { threshold: t };
                        Request::Select(1)
                    } else {
                        let affected = kept_indices(dice);
                        clamp_dice(dice, &affected, t, op == SetOperator::Minimum);
                        Request::Done
                    }
                },
                _ => {
                    self.stage = Stage::Thresholding;
                    Request::Threshold
                },
            },
            Stage::Clamping { threshold } => match answer {
                Answer::Selected(picked) => {
                    clamp_dice(dice, &picked, threshold, op == SetOperator::Minimum);
                    Request::Done
                },
                _ => {
                    self.stage = Stage::Clamping { threshold };
                    Request::Select(1)
                },
            },
            Stage::Finished => Request::Done,
        }
    }
}

} // verus!

verus! {

proof fn lemma_kept_indices_contains(dice: Seq<DieResult>, n: nat, i: int)
    requires
        n <= dice.len(),
        dice.len() <= usize::MAX,
        0 <= i < dice.len(),
    ensures
        kept_indices_spec(dice, n).contains(i as usize) <==> (i < n && dice[i].kept),
    decreases n,
{
    if n > 0 {
        lemma_kept_indices_contains(dice, (n - 1) as nat, i);
        let before = kept_indices_spec(dice, (n - 1) as nat);
        if dice[n - 1].kept {
            assert(kept_indices_spec(dice, n) == before.push((n - 1) as usize));
            if i == n - 1 {
                assert(before.push((n - 1) as usize)[before.len() as int] == (n - 1) as usize);
            } else if before.push((n - 1) as usize).contains(i as usize) {
                let grown = before.push((n - 1) as usize);
                let k = choose|k: int| 0 <= k < grown.len() && #[trigger] grown[k] == i as usize;
                assert(k < before.len());
                assert(before[k] == i as usize);
            }
            if before.contains(i as usize) {
                let k = choose|k: int| 0 <= k < before.len() && before[k] == i as usize;
                assert(before.push((n - 1) as usize)[k] == i as usize);
            }
        }
    }
}

/// A full reroll ends only on a selection that picks no die of the pool,
/// leaving the pool as it was: `3d6rr<3` stops rerolling once no die is
/// below 3.
pub proof fn lemma_reroll_ends_when_none_match(
    s: OperationState,
    dice: Seq<DieResult>,
    answer: Answer,
    s2: OperationState,
    dice2: Seq<DieResult>,
    r: Request,
)
    requires
        s.operator == SetOperator::Reroll,
        s.phase is Selecting || s.phase matches Phase::Rerolling { once: false, .. },
        advances(s, dice, answer, s2, dice2, r),
        r is Done,
    ensures
        answer matches Answer::Selected(picked) && indices_below(picked@, dice.len()).len() == 0,
        dice2 == dice,
{
}

/// A reroll once never selects again: each die it picks is rerolled once.
pub proof fn lemma_reroll_once_selects_once(
    s: OperationState,
    dice: Seq<DieResult>,
    answer: Answer,
    s2: OperationState,
    dice2: Seq<DieResult>,
    r: Request,
)
    requires
        s.operator == SetOperator::RerollOnce,
        s.phase matches Phase::Rerolling { once: true, .. } || s.phase is Finished,
        advances(s, dice, answer, s2, dice2, r),
    ensures
        s2.phase !is Selecting,
        !(r is Select),
{
}

/// An explosion stops only when the selectors do not pick the die it added
/// last and every die in its queue has exploded: `1d6e==6` rolls on until a
/// die is not a 6.
pub proof fn lemma_explosion_ends_when_none_match(
    s: OperationState,
    dice: Seq<DieResult>,
    answer: Answer,
    s2: OperationState,
    dice2: Seq<DieResult>,
    r: Request,
)
    requires
        s.operator == SetOperator::Explode,
        s.phase matches Phase::Exploding { queue, next, checking } && checking && next <= queue.len(),
        dice.len() > 0,
        advances(s, dice, answer, s2, dice2, r),
        r is Done,
    ensures
        answer matches Answer::Selected(picked) && !picked@.contains((dice.len() - 1) as usize),
        s.phase matches Phase::Exploding { queue, next, .. } && next == queue.len(),
        dice2 == dice,
{
}

/// A minimum with one selector leaves every kept die at or above its
/// threshold: `4d6mi3` gives kept dice of 3 or more.
pub proof fn lemma_minimum_raises_kept_dice(
    s: OperationState,
    dice: Seq<DieResult>,
    t: Number,
    s2: OperationState,
    dice2: Seq<DieResult>,
    r: Request,
)
    requires
        s.operator == SetOperator::Minimum,
        s.selectors == 1,
        s.phase is Thresholding,
        dice.len() <= usize::MAX,
        !is_nan(t),
        forall|i: int| 0 <= i < dice.len() ==> !is_nan(#[trigger] dice[i].value),
        advances(s, dice, Answer::Threshold(t), s2, dice2, r),
        r is Done,
    ensures
        dice2.len() == dice.len(),
        forall|i: int| 0 <= i < dice2.len() && #[trigger] dice2[i].kept ==> num_le(t, dice2[i].value),
{
    assert forall|i: int| 0 <= i < dice2.len() && #[trigger] dice2[i].kept implies num_le(
        t,
        dice2[i].value,
    ) by {
        lemma_kept_indices_contains(dice, dice.len(), i);
        assert(clamped(dice[i], dice2[i], t, true, kept_indices_spec(dice, dice.len()).contains(i as usize)
            && clamp_moves(dice[i].value, t, true)));
    }
}

/// A maximum with one selector leaves every kept die at or below its
/// threshold: `4d6ma5` gives kept dice of 5 or less.
pub proof fn lemma_maximum_lowers_kept_dice(
    s: OperationState,
    dice: Seq<DieResult>,
    t: Number,
    s2: OperationState,
    dice2: Seq<DieResult>,
    r: Request,
)
    requires
        s.operator == SetOperator::Maximum,
        s.selectors == 1,
        s.phase is Thresholding,
        dice.len() <= usize::MAX,
        !is_nan(t),
        forall|i: int| 0 <= i < dice.len() ==> !is_nan(#[trigger] dice[i].value),
        advances(s, dice, Answer::Threshold(t), s2, dice2, r),
    ensures
        dice2.len() == dice.len(),
        forall|i: int| 0 <= i < dice2.len() && #[trigger] dice2[i].kept ==> num_le(dice2[i].value, t),
{
    assert forall|i: int| 0 <= i < dice2.len() && #[trigger] dice2[i].kept implies num_le(
        dice2[i].value,
        t,
    ) by {
        lemma_kept_indices_contains(dice, dice.len(), i);
        assert(clamped(dice[i], dice2[i], t, false, kept_indices_spec(dice, dice.len()).contains(
            i as usize,
        ) && clamp_moves(dice[i].value, t, false)));
    }
}

} // verus!

verus! {

proof fn lemma_indices_below(s: Seq<usize>, n: nat)
    ensures
        forall|i: int|
            0 <= i < indices_below(s, n).len() ==> (#[trigger] indices_below(s, n)[i]) < n
                && s.contains(indices_below(s, n)[i]),
        forall|k: usize| s.contains(k) && k < n ==> #[trigger] indices_below(s, n).contains(k),
    decreases s.len(),
{
    if s.len() > 0 {
        let init = s.drop_last();
        lemma_indices_below(init, n);
        let before = indices_below(init, n);
        let now = indices_below(s, n);
        assert forall|i: int| 0 <= i < now.len() implies (#[trigger] now[i]) < n && s.contains(now[i]) by {
            if i < before.len() {
                assert(now[i] == before[i]);
                let j = choose|j: int| 0 <= j < init.len() && init[j] == before[i];
                assert(s[j] == init[j]);
            } else {
                assert(now[i] == s.last());
                assert(s[s.len() - 1] == s.last());
            }
        }
        assert forall|k: usize| s.contains(k) && k < n implies #[trigger] now.contains(k) by {
            let j = choose|j: int| 0 <= j < s.len() && s[j] == k;
            if j < s.len() - 1 {
                assert(init[j] == k);
                assert(before.contains(k));
                let m = choose|m: int| 0 <= m < before.len() && before[m] == k;
                assert(now[m] == k);
            } else {
                assert(now[now.len() - 1] == k);
            }
        }
    }
}

/// An explosion explodes every die its first selection picks: after that
/// selection the queue of dice to explode is the whole selection, none of it
/// exploded yet, and a roll is asked for.
pub proof fn lemma_explosion_queues_every_pick(
    s: OperationState,
    dice: Seq<DieResult>,
    answer: Answer,
    s2: OperationState,
    dice2: Seq<DieResult>,
    r: Request,
)
    requires
        s.operator == SetOperator::Explode,
        s.phase is Selecting,
        answer matches Answer::Selected(picked) && picked@.len() > 0,
        advances(s, dice, answer, s2, dice2, r),
    ensures
        answer matches Answer::Selected(picked) && (s2.phase matches Phase::Exploding {
            queue,
            next,
            checking,
        } && queue == picked@ && next == 1 && !checking),
        r is Roll,
        dice2 == dice,
{
}

/// While exploding, each roll adds one explosion die showing it, and the
/// queue of dice to explode only grows: a die leaves it only by exploding,
/// and the explosion is over only when every die in it has exploded.
pub proof fn lemma_explosion_step(
    s: OperationState,
    dice: Seq<DieResult>,
    answer: Answer,
    s2: OperationState,
    dice2: Seq<DieResult>,
    r: Request,
)
    requires
        s.operator == SetOperator::Explode,
        s.phase matches Phase::Exploding { queue, next, .. } && 1 <= next <= queue.len(),
        advances(s, dice, answer, s2, dice2, r),
    ensures
        s.phase matches Phase::Exploding { queue, next, checking } && {
            &&& (!checking && answer is Rolled) ==> {
                &&& answer matches Answer::Rolled(v) && dice2.last().value == v
                &&& dice2.len() == dice.len() + 1
                &&& dice2.take(dice.len() as int) == dice
                &&& dice2.last().origin == DieOrigin::Explosion
                &&& s2.phase == Phase::Exploding { queue, next, checking: true }
            }
            &&& (checking && answer is Selected) ==> {
                &&& dice2 == dice
                &&& r is Done ==> next == queue.len() && s2.phase is Finished
                &&& !(r is Done) ==> r is Roll
                &&& !(r is Done) ==> (s2.phase matches Phase::Exploding {
                    queue: q2,
                    next: n2,
                    checking: c2,
                } && q2.len() >= queue.len() && q2.take(queue.len() as int) == queue && n2 == next
                    + 1 && !c2)
            }
        },
{
    match s.phase {
        Phase::Exploding { queue, next, checking } => {
            if checking {
                match answer {
                    Answer::Selected(picked) => {
                        let last = dice.len() - 1;
                        if dice.len() > 0 && picked@.contains(last as usize) {
                            assert(queue.push(last as usize).take(queue.len() as int) =~= queue);
                        } else {
                            assert(queue.take(queue.len() as int) =~= queue);
                        }
                    },
                    _ => {},
                }
            }
        },
        _ => {},
    }
}

/// A reroll (once or until none match) rerolls each picked die of the pool:
/// after its selection it waits to reroll exactly the picks that are dice
/// of the pool, and it is done at once only when none is.
pub proof fn lemma_reroll_pends_every_pick(
    s: OperationState,
    dice: Seq<DieResult>,
    answer: Answer,
    s2: OperationState,
    dice2: Seq<DieResult>,
    r: Request,
)
    requires
        s.operator == SetOperator::RerollOnce || s.operator == SetOperator::Reroll,
        s.phase is Selecting,
        answer is Selected,
        advances(s, dice, answer, s2, dice2, r),
    ensures
        dice2 == dice,
        answer matches Answer::Selected(picked) && {
            &&& (exists|k: usize| picked@.contains(k) && k < dice.len()) ==> r is Roll
            &&& (exists|k: usize| picked@.contains(k) && k < dice.len()) ==> (
            s2.phase matches Phase::Rerolling { pending, next, once } && next == 0 && once == (
            s.operator == SetOperator::RerollOnce) && (forall|i: int|
                0 <= i < pending.len() ==> (#[trigger] pending[i]) < dice.len() && picked@.contains(
                    pending[i],
                )) && (forall|k: usize|
                picked@.contains(k) && k < dice.len() ==> #[trigger] pending.contains(k)))
            &&& !(exists|k: usize| picked@.contains(k) && k < dice.len()) ==> r is Done
        },
{
    match answer {
        Answer::Selected(picked) => {
            lemma_indices_below(picked@, dice.len());
            let pending = indices_below(picked@, dice.len());
            if exists|k: usize| picked@.contains(k) && k < dice.len() {
                let k = choose|k: usize| picked@.contains(k) && k < dice.len();
                assert(pending.contains(k));
            } else {
                if pending.len() > 0 {
                    assert(pending[0] < dice.len() && picked@.contains(pending[0]));
                }
            }
        },
        _ => {},
    }
}

/// Each roll of a reroll goes to the pending die whose turn it is: that die
/// now shows the roll, with the roll added to its rolls, and no other die
/// changes; a reroll asks for another roll exactly while dice remain
/// pending, and then a reroll once is done while a full reroll selects
/// again.
pub proof fn lemma_reroll_roll_step(
    s: OperationState,
    dice: Seq<DieResult>,
    v: Number,
    s2: OperationState,
    dice2: Seq<DieResult>,
    r: Request,
)
    requires
        s.phase matches Phase::Rerolling { pending, next, .. } && next < pending.len(),
        advances(s, dice, Answer::Rolled(v), s2, dice2, r),
    ensures
        s.phase matches Phase::Rerolling { pending, next, once } && {
            let idx = pending[next as int] as int;
            &&& dice2.len() == dice.len()
            &&& forall|j: int| 0 <= j < dice.len() && j != idx ==> #[trigger] dice2[j] == dice[j]
            &&& 0 <= idx < dice.len() ==> {
                &&& dice2[idx].value == v
                &&& dice2[idx].rolls@ == dice[idx].rolls@.push(v)
                &&& dice2[idx].kept == dice[idx].kept
                &&& dice2[idx].origin == dice[idx].origin
            }
            &&& next + 1 < pending.len() ==> (r is Roll && s2.phase == Phase::Rerolling {
                pending,
                next: next + 1,
                once,
            })
            &&& (next + 1 == pending.len() && once) ==> (r is Done && s2.phase is Finished)
            &&& (next + 1 == pending.len() && !once) ==> (r matches Request::Select(k) && k == 0
                && s2.phase is Selecting)
        },
{
}

} // verus!

verus! {

/// A keep leaves kept exactly the dice that were kept and picked; a drop
/// leaves kept exactly the dice that were kept and not picked; values, rolls
/// and origins stay, and the operation is then done.
pub proof fn lemma_keep_drop_step(
    s: OperationState,
    dice: Seq<DieResult>,
    answer: Answer,
    s2: OperationState,
    dice2: Seq<DieResult>,
    r: Request,
)
    requires
        s.operator == SetOperator::Keep || s.operator == SetOperator::Drop,
        s.phase is Selecting,
        answer is Selected,
        advances(s, dice, answer, s2, dice2, r),
    ensures
        r is Done,
        dice2.len() == dice.len(),
        answer matches Answer::Selected(picked) && forall|i: int|
            0 <= i < dice.len() ==> {
                &&& (#[trigger] dice2[i]).kept == (dice[i].kept && (picked@.contains(i as usize)
                    == (s.operator == SetOperator::Keep)))
                &&& dice2[i].value == dice[i].value
                &&& dice2[i].rolls == dice[i].rolls
                &&& dice2[i].origin == dice[i].origin
            },
{
}

/// A reroll-and-add adds one die for each pick: after a selection of `P`
/// dice it asks for `|P|` rolls, each adding a reroll-and-add die that shows
/// the roll, and is done after the last.
pub proof fn lemma_reroll_add_step(
    s: OperationState,
    dice: Seq<DieResult>,
    answer: Answer,
    s2: OperationState,
    dice2: Seq<DieResult>,
    r: Request,
)
    requires
        s.operator == SetOperator::RerollAdd,
        s.phase is Selecting || (s.phase matches Phase::Adding { left } && left >= 1),
        advances(s, dice, answer, s2, dice2, r),
    ensures
        (s.phase is Selecting && answer is Selected) ==> dice2 == dice,
        (s.phase is Selecting && answer is Selected) ==> (answer matches Answer::Selected(picked) && (
        picked@.len() == 0 ==> r is Done) && (picked@.len() > 0 ==> r is Roll && s2.phase
            == Phase::Adding { left: picked@.len() })),
        (s.phase is Adding && answer is Rolled) ==> (dice2.len() == dice.len() + 1 && dice2.take(
            dice.len() as int,
        ) == dice && dice2.last().origin == DieOrigin::RerollAdd),
        (s.phase is Adding && answer is Rolled) ==> (answer matches Answer::Rolled(v)
            && dice2.last().value == v),
        (s.phase is Adding && answer is Rolled) ==> (s.phase matches Phase::Adding { left } && (left
            > 1 ==> r is Roll && s2.phase == Phase::Adding { left: (left - 1) as nat }) && (left == 1
            ==> r is Done)),
{
}

} // verus!
