use rollatorium::ast::{Node, Selector, SelectorKind, SetOperation, SetOperator};
use rollatorium::eval::set_operation_error;
use rollatorium::pool::{operator_name_of, Answer, PoolOperation, Request};
use rollatorium::{DieAdjustment, DieOrigin, DieResult, Number, RollatoriumError};

fn n(x: f64) -> Number {
    Number { bits: x.to_bits() }
}

fn v(x: Number) -> f64 {
    f64::from_bits(x.bits)
}

fn pool(values: &[f64]) -> Vec<DieResult> {
    values.iter().map(|&x| DieResult::new(n(x), DieOrigin::Original)).collect()
}

fn values(dice: &[DieResult]) -> Vec<f64> {
    dice.iter().map(|d| v(d.value)).collect()
}

fn operation(operator: SetOperator, kinds: &[SelectorKind]) -> SetOperation<&'static str> {
    SetOperation {
        operator,
        selectors: kinds
            .iter()
            .map(|&kind| Selector { kind, target: Box::new(Node::Literal(n(3.0))) })
            .collect(),
    }
}

fn is_select(r: &Request, k: usize) -> bool {
    matches!(r, Request::Select(j) if *j == k)
}

fn fail_message(r: Request) -> String {
    match r {
        Request::Fail(RollatoriumError::Eval(m)) => m,
        _ => panic!("expected a failure"),
    }
}

#[test]
fn keep_applies_to_the_selection() {
    let mut dice = pool(&[3.0, 5.0, 1.0, 5.0]);
    let (mut run, r) = PoolOperation::start(&operation(SetOperator::Keep, &[SelectorKind::Highest]));
    assert!(is_select(&r, 0));
    let r = run.step(&mut dice, Answer::Selected(vec![1, 3, 0]));
    assert!(matches!(r, Request::Done));
    assert_eq!(dice.iter().map(|d| d.kept).collect::<Vec<_>>(), vec![true, true, false, true]);
    assert!(matches!(run.step(&mut dice, Answer::Rolled(n(2.0))), Request::Done));
}

#[test]
fn drop_applies_to_the_selection() {
    let mut dice = pool(&[3.0, 5.0, 1.0]);
    let (mut run, _) = PoolOperation::start(&operation(SetOperator::Drop, &[SelectorKind::Lowest]));
    let r = run.step(&mut dice, Answer::Selected(vec![2]));
    assert!(matches!(r, Request::Done));
    assert_eq!(dice.iter().map(|d| d.kept).collect::<Vec<_>>(), vec![true, true, false]);
}

#[test]
fn reroll_until_none_match() {
    // 3d6rr<3 with the dice 1, 5, 2.
    let mut dice = pool(&[1.0, 5.0, 2.0]);
    let (mut run, r) = PoolOperation::start(&operation(SetOperator::Reroll, &[SelectorKind::LessThan]));
    assert!(is_select(&r, 0));
    assert!(matches!(run.step(&mut dice, Answer::Selected(vec![0, 2])), Request::Roll));
    assert!(matches!(run.step(&mut dice, Answer::Rolled(n(4.0))), Request::Roll));
    let r = run.step(&mut dice, Answer::Rolled(n(1.0)));
    assert!(is_select(&r, 0));
    assert_eq!(values(&dice), vec![4.0, 5.0, 1.0]);
    assert!(matches!(run.step(&mut dice, Answer::Selected(vec![2])), Request::Roll));
    assert!(is_select(&run.step(&mut dice, Answer::Rolled(n(6.0))), 0));
    assert!(matches!(run.step(&mut dice, Answer::Selected(vec![])), Request::Done));
    assert_eq!(values(&dice), vec![4.0, 5.0, 6.0]);
    assert_eq!(dice[2].rolls.iter().map(|&x| v(x)).collect::<Vec<_>>(), vec![2.0, 1.0, 6.0]);
    assert_eq!(dice[1].rolls.len(), 1);
}

#[test]
fn reroll_once_rolls_each_pick_once() {
    let mut dice = pool(&[1.0, 5.0]);
    let (mut run, _) = PoolOperation::start(&operation(SetOperator::RerollOnce, &[SelectorKind::LessThan]));
    assert!(matches!(run.step(&mut dice, Answer::Selected(vec![0, 7])), Request::Roll));
    assert!(matches!(run.step(&mut dice, Answer::Rolled(n(2.0))), Request::Done));
    assert_eq!(values(&dice), vec![2.0, 5.0]);
    assert_eq!(dice[0].rolls.len(), 2);
}

#[test]
fn reroll_with_no_pick_in_the_pool_is_done() {
    let mut dice = pool(&[1.0]);
    let (mut run, _) = PoolOperation::start(&operation(SetOperator::Reroll, &[SelectorKind::LessThan]));
    assert!(matches!(run.step(&mut dice, Answer::Selected(vec![4])), Request::Done));
    assert_eq!(values(&dice), vec![1.0]);
}

#[test]
fn reroll_add_adds_a_die_per_pick() {
    let mut dice = pool(&[6.0, 6.0, 2.0]);
    let (mut run, _) = PoolOperation::start(&operation(SetOperator::RerollAdd, &[SelectorKind::EqualTo]));
    assert!(matches!(run.step(&mut dice, Answer::Selected(vec![0, 1])), Request::Roll));
    assert!(matches!(run.step(&mut dice, Answer::Rolled(n(3.0))), Request::Roll));
    assert!(matches!(run.step(&mut dice, Answer::Rolled(n(6.0))), Request::Done));
    assert_eq!(values(&dice), vec![6.0, 6.0, 2.0, 3.0, 6.0]);
    assert!(dice[3..].iter().all(|d| d.origin == DieOrigin::RerollAdd && d.kept));
}

#[test]
fn explosion_chains_while_new_dice_match() {
    // 1d6e==6: a six, then a six, then a three.
    let mut dice = pool(&[6.0]);
    let (mut run, r) = PoolOperation::start(&operation(SetOperator::Explode, &[SelectorKind::EqualTo]));
    assert!(is_select(&r, 0));
    assert!(matches!(run.step(&mut dice, Answer::Selected(vec![0])), Request::Roll));
    assert!(is_select(&run.step(&mut dice, Answer::Rolled(n(6.0))), 0));
    assert!(matches!(run.step(&mut dice, Answer::Selected(vec![0, 1])), Request::Roll));
    assert!(is_select(&run.step(&mut dice, Answer::Rolled(n(3.0))), 0));
    assert!(matches!(run.step(&mut dice, Answer::Selected(vec![0, 1])), Request::Done));
    assert_eq!(values(&dice), vec![6.0, 6.0, 3.0]);
    assert_eq!(dice[1].origin, DieOrigin::Explosion);
    assert_eq!(dice[2].origin, DieOrigin::Explosion);
}

#[test]
fn minimum_clamps_the_kept_dice() {
    let mut dice = pool(&[1.0, 4.0, 2.0]);
    dice[2].kept = false;
    let (mut run, r) = PoolOperation::start(&operation(SetOperator::Minimum, &[SelectorKind::Literal]));
    assert!(matches!(r, Request::Threshold));
    assert!(matches!(run.step(&mut dice, Answer::Threshold(n(3.0))), Request::Done));
    assert_eq!(values(&dice), vec![3.0, 4.0, 2.0]);
    assert!(matches!(
        dice[0].adjustments[..],
        [DieAdjustment::Minimum { threshold, previous }] if v(threshold) == 3.0 && v(previous) == 1.0
    ));
}

#[test]
fn maximum_with_more_selectors_clamps_their_pick() {
    let mut dice = pool(&[6.0, 4.0, 6.0]);
    let op = operation(SetOperator::Maximum, &[SelectorKind::Literal, SelectorKind::Highest]);
    let (mut run, r) = PoolOperation::start(&op);
    assert!(matches!(r, Request::Threshold));
    assert!(is_select(&run.step(&mut dice, Answer::Threshold(n(5.0))), 1));
    assert!(matches!(run.step(&mut dice, Answer::Selected(vec![0])), Request::Done));
    assert_eq!(values(&dice), vec![5.0, 4.0, 6.0]);
}

#[test]
fn clamp_failures() {
    let (_, r) = PoolOperation::start(&operation(SetOperator::Minimum, &[]));
    assert_eq!(fail_message(r), "Minimum operation requires a selector");
    let (_, r) = PoolOperation::start(&operation(SetOperator::Maximum, &[]));
    assert_eq!(fail_message(r), "Maximum operation requires a selector");
    // 10d6mil1: the first selector is not a literal.
    let (_, r) = PoolOperation::start(&operation(SetOperator::Minimum, &[SelectorKind::Lowest]));
    assert_eq!(fail_message(r), "selector target must be positive");
    let mut dice = pool(&[1.0]);
    let (mut run, _) = PoolOperation::start(&operation(SetOperator::Minimum, &[SelectorKind::Literal]));
    let r = run.step(&mut dice, Answer::Threshold(n(0.0)));
    assert_eq!(fail_message(r), "selector target must be positive");
    assert_eq!(values(&dice), vec![1.0]);
    // A maximum may be zero.
    let (mut run, _) = PoolOperation::start(&operation(SetOperator::Maximum, &[SelectorKind::Literal]));
    assert!(matches!(run.step(&mut dice, Answer::Threshold(n(0.0))), Request::Done));
    assert_eq!(values(&dice), vec![0.0]);
}

#[test]
fn unsupported_operations_fail() {
    let (mut run, r) = PoolOperation::start(&operation(SetOperator::CountSuccess, &[]));
    assert_eq!(fail_message(r), "Set operation CountSuccess is not supported in the evaluator");
    let mut dice = pool(&[1.0]);
    assert!(matches!(run.step(&mut dice, Answer::Selected(vec![0])), Request::Done));
    assert_eq!(operator_name_of(SetOperator::ExplodeCompound), "ExplodeCompound");
}

#[test]
fn an_answer_that_does_not_fit_repeats_the_request() {
    let mut dice = pool(&[2.0]);
    let (mut run, _) = PoolOperation::start(&operation(SetOperator::Reroll, &[SelectorKind::LessThan]));
    assert!(is_select(&run.step(&mut dice, Answer::Rolled(n(5.0))), 0));
    assert!(matches!(run.step(&mut dice, Answer::Selected(vec![0])), Request::Roll));
    assert!(matches!(run.step(&mut dice, Answer::Threshold(n(5.0))), Request::Roll));
    assert_eq!(values(&dice), vec![2.0]);
}

#[test]
fn sets_support_keep_and_drop_only() {
    assert!(set_operation_error(SetOperator::Keep).is_none());
    assert!(set_operation_error(SetOperator::Drop).is_none());
    assert_eq!(
        set_operation_error(SetOperator::Reroll),
        Some(RollatoriumError::Eval("Set operation Reroll is not supported for sets".to_string()))
    );
}
