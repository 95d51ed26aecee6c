use rollatorium::ast::{BinaryOperator, DiceSize, Node, SelectorKind};
use rollatorium::eval::{
    clamp_dice, die_bounds, divides_by_zero, drop_dice, drop_elements, face_value, keep_dice,
    keep_elements, kept_indices, select_highest, select_lowest, select_set_highest,
    select_set_lowest, select_set_value, select_value, sorted_union, RollBudget,
};
use rollatorium::{
    DieAdjustment, DieOrigin, DieResult, EvalConfig, EvalResult, Number, RollatoriumError,
    SetElement, Value,
};

fn n(x: f64) -> Number {
    Number { bits: x.to_bits() }
}

fn v(x: Number) -> f64 {
    f64::from_bits(x.bits)
}

fn pool(values: &[f64]) -> Vec<DieResult> {
    values.iter().map(|&x| DieResult::new(n(x), DieOrigin::Original)).collect()
}

fn set_of(totals: &[f64]) -> Vec<SetElement<&'static str>> {
    totals
        .iter()
        .map(|&x| SetElement {
            value: EvalResult { total: n(x), value: Value::Literal(n(x)) },
            kept: true,
            dropped: false,
        })
        .collect()
}

#[test]
fn default_config_allows_a_thousand_rolls() {
    assert_eq!(EvalConfig::default().max_rolls, 1000);
}

#[test]
fn roll_budget_runs_out() {
    let mut budget = RollBudget::new(&EvalConfig { max_rolls: 2 });
    assert_eq!(budget.take(), Ok(()));
    assert_eq!(budget.take(), Ok(()));
    assert_eq!(
        budget.take(),
        Err(RollatoriumError::Eval("Exceeded maximum number of rolls".to_string()))
    );
    assert_eq!(budget.used(), 2);
}

#[test]
fn die_bounds_and_faces() {
    assert_eq!(die_bounds(None), Ok((0, 9)));
    assert_eq!(die_bounds(Some(6)), Ok((1, 6)));
    assert_eq!(
        die_bounds(Some(0)),
        Err(RollatoriumError::Eval("Die size must be positive".to_string()))
    );
    assert_eq!(face_value(7, true), 70);
    assert_eq!(face_value(0, true), 0);
    assert_eq!(face_value(7, false), 7);
}

#[test]
fn division_by_zero_is_detected() {
    assert!(divides_by_zero(BinaryOperator::Divide, n(0.0)));
    assert!(divides_by_zero(BinaryOperator::IntDivide, n(-0.0)));
    assert!(divides_by_zero(BinaryOperator::Modulo, n(0.0)));
    assert!(!divides_by_zero(BinaryOperator::Divide, n(2.0)));
    assert!(!divides_by_zero(BinaryOperator::Add, n(0.0)));
    assert!(!divides_by_zero(BinaryOperator::Less, n(0.0)));
}

#[test]
fn keep_highest_three_of_four() {
    let dice = pool(&[3.0, 5.0, 1.0, 5.0]);
    assert_eq!(select_highest(&dice, 3), vec![1, 3, 0]);
    assert_eq!(select_lowest(&dice, 2), vec![2, 0]);
    assert_eq!(select_highest(&dice, 10), vec![1, 3, 0, 2]);
    assert_eq!(select_lowest(&dice, 0), Vec::<usize>::new());
    let mut dice = dice;
    keep_dice(&mut dice, &select_highest(&pool(&[3.0, 5.0, 1.0, 5.0]), 3));
    let kept: Vec<bool> = dice.iter().map(|d| d.kept).collect();
    assert_eq!(kept, vec![true, true, false, true]);
    let total: f64 = dice.iter().filter(|d| d.kept).map(|d| v(d.value)).sum();
    assert_eq!(total, 13.0);
}

#[test]
fn selections_skip_dropped_dice() {
    let mut dice = pool(&[6.0, 2.0, 4.0]);
    drop_dice(&mut dice, &vec![0]);
    assert_eq!(select_highest(&dice, 1), vec![2]);
    assert_eq!(select_value(&dice, SelectorKind::GreaterThan, n(1.0)), vec![1, 2]);
    assert_eq!(kept_indices(&dice), vec![1, 2]);
    // A dropped die stays dropped under a later keep.
    keep_dice(&mut dice, &vec![0, 1]);
    let kept: Vec<bool> = dice.iter().map(|d| d.kept).collect();
    assert_eq!(kept, vec![false, true, false]);
}

#[test]
fn threshold_selections() {
    let dice = pool(&[1.0, 3.0, 4.0, 6.0]);
    assert_eq!(select_value(&dice, SelectorKind::GreaterThan, n(3.0)), vec![2, 3]);
    assert_eq!(select_value(&dice, SelectorKind::GreaterThanOrEqual, n(3.0)), vec![1, 2, 3]);
    assert_eq!(select_value(&dice, SelectorKind::LessThan, n(3.0)), vec![0]);
    assert_eq!(select_value(&dice, SelectorKind::LessThanOrEqual, n(3.0)), vec![0, 1]);
    assert_eq!(select_value(&dice, SelectorKind::LessThan, n(f64::NAN)), Vec::<usize>::new());
    assert_eq!(select_value(&dice, SelectorKind::GreaterThan, n(-0.5)), vec![0, 1, 2, 3]);
}

#[test]
fn union_of_selections_is_sorted_and_unique() {
    assert_eq!(sorted_union(&vec![vec![3, 1], vec![1, 0, 3]], 5), vec![0, 1, 3]);
    assert_eq!(sorted_union(&vec![], 5), Vec::<usize>::new());
}

#[test]
fn clamping_records_adjustments() {
    let mut dice = pool(&[1.0, 5.0, 2.0]);
    let affected = kept_indices(&dice);
    clamp_dice(&mut dice, &affected, n(3.0), true);
    let values: Vec<f64> = dice.iter().map(|d| v(d.value)).collect();
    assert_eq!(values, vec![3.0, 5.0, 3.0]);
    assert!(matches!(dice[0].adjustments[0], DieAdjustment::Minimum { threshold, previous }
        if v(threshold) == 3.0 && v(previous) == 1.0));
    assert!(dice[1].adjustments.is_empty());
    clamp_dice(&mut dice, &affected, n(4.0), false);
    let values: Vec<f64> = dice.iter().map(|d| v(d.value)).collect();
    assert_eq!(values, vec![3.0, 4.0, 3.0]);
    assert!(matches!(dice[1].adjustments[0], DieAdjustment::Maximum { threshold, previous }
        if v(threshold) == 4.0 && v(previous) == 5.0));
    // Only the listed dice are clamped.
    let mut dice = pool(&[1.0, 1.0]);
    clamp_dice(&mut dice, &vec![1, 1], n(2.0), true);
    assert_eq!(v(dice[0].value), 1.0);
    assert_eq!(v(dice[1].value), 2.0);
    assert_eq!(dice[1].adjustments.len(), 1);
}

#[test]
fn set_keep_and_drop() {
    let mut elements = set_of(&[1.0, 2.0, 9.0]);
    let low = select_set_value(&elements, SelectorKind::LessThan, n(9.0), true);
    assert_eq!(low, vec![0, 1]);
    drop_elements(&mut elements, &low);
    let kept: Vec<bool> = elements.iter().map(|e| e.kept).collect();
    assert_eq!(kept, vec![false, false, true]);

    let mut elements = set_of(&[4.0, 8.0, 6.0]);
    let top = select_set_highest(&elements, 1, false);
    assert_eq!(top, vec![1]);
    keep_elements(&mut elements, &top, false);
    let bottom = select_set_lowest(&elements, 1, false);
    assert_eq!(bottom, vec![0]);
    keep_elements(&mut elements, &bottom, true);
    let kept: Vec<bool> = elements.iter().map(|e| e.kept).collect();
    assert_eq!(kept, vec![true, true, false]);
    for e in elements.iter_mut() {
        e.refresh_drop_state();
    }
    let dropped: Vec<bool> = elements.iter().map(|e| e.dropped).collect();
    assert_eq!(dropped, vec![false, false, true]);
}

#[test]
fn new_die_and_drop_state() {
    let mut die = DieResult::new(n(4.0), DieOrigin::Explosion);
    assert_eq!(v(die.value), 4.0);
    assert_eq!(die.rolls.len(), 1);
    assert!(die.kept && !die.dropped);
    assert_eq!(die.origin, DieOrigin::Explosion);
    die.kept = false;
    die.refresh_drop_state();
    assert!(die.dropped);
}

#[test]
fn error_messages() {
    assert_eq!(RollatoriumError::Lexer("x".into()).message(), "Lexer error: x");
    assert_eq!(RollatoriumError::Parser("y".into()).message(), "Parser error: y");
    assert_eq!(RollatoriumError::Eval("z".into()).message(), "Evaluation error: z");
    assert_eq!(RollatoriumError::DivisionByZero.message(), "Division by zero");
}

#[test]
fn numbers_compare_as_f64() {
    let xs = [-3.5, -0.0, 0.0, 1.0, 2.5, f64::INFINITY, f64::NEG_INFINITY, f64::NAN, 1e300, -1e-300];
    for &a in xs.iter() {
        for &b in xs.iter() {
            assert_eq!(n(a).lt(&n(b)), a < b, "{} < {}", a, b);
            assert_eq!(n(a).le(&n(b)), a <= b, "{} <= {}", a, b);
            assert_eq!(n(a) == n(b), a == b, "{} == {}", a, b);
        }
        assert_eq!(n(a).is_nan(), a.is_nan());
        assert_eq!(n(a).is_zero(), a == 0.0);
    }
}

#[test]
fn eval_result_clone_keeps_everything() {
    let mut dice = pool(&[4.0, 2.0]);
    dice[1].kept = false;
    dice[1].refresh_drop_state();
    clamp_dice(&mut dice, &vec![0], n(5.0), true);
    let roll = rollatorium::DiceRoll::<&str> { quantity: 2, size: 6, dice, operations: Vec::new() };
    let result = EvalResult {
        total: n(5.0),
        value: Value::Annotated {
            expr: Box::new(EvalResult { total: n(5.0), value: Value::Dice(roll) }),
            annotations: vec![rollatorium::Annotation { tag: "fire" }],
        },
    };
    let copy = result.clone();
    assert_eq!(v(copy.total), 5.0);
    match copy.value {
        Value::Annotated { expr, annotations } => {
            assert_eq!(annotations, vec![rollatorium::Annotation { tag: "fire" }]);
            match expr.value {
                Value::Dice(roll) => {
                    assert_eq!(roll.quantity, 2);
                    assert_eq!(roll.size, 6);
                    assert_eq!(roll.dice.len(), 2);
                    assert_eq!(v(roll.dice[0].value), 5.0);
                    assert_eq!(roll.dice[0].rolls.iter().map(|&x| v(x)).collect::<Vec<_>>(), vec![4.0]);
                    assert!(matches!(
                        roll.dice[0].adjustments[..],
                        [DieAdjustment::Minimum { .. }]
                    ));
                    assert!(!roll.dice[1].kept);
                    assert!(roll.dice[1].dropped);
                }
                other => panic!("expected dice, got {:?}", other),
            }
        }
        other => panic!("expected annotated value, got {:?}", other),
    }
}

#[test]
fn a_pool_iterates_over_its_dice() {
    let mut dice = pool(&[3.0, 5.0, 1.0, 4.0]);
    dice[2].kept = false;
    let roll = rollatorium::DiceRoll::<&str> { quantity: 4, size: 6, dice, operations: Vec::new() };
    let mut seen = Vec::new();
    for die in &roll {
        seen.push((v(die.value()), die.kept()));
    }
    assert_eq!(seen, vec![(3.0, true), (5.0, true), (1.0, false), (4.0, true)]);
}

#[test]
fn refreshing_marks_the_dice_and_elements_not_kept_as_dropped() {
    let mut dice = pool(&[3.0, 5.0]);
    dice[0].kept = false;
    rollatorium::eval::refresh_pool(&mut dice);
    assert!(dice[0].dropped && !dice[1].dropped);
    assert_eq!(v(dice[0].value), 3.0);
    let mut elements = set_of(&[1.0, 2.0]);
    elements[1].kept = false;
    rollatorium::eval::refresh_elements(&mut elements);
    assert!(!elements[0].dropped && elements[1].dropped);
}

#[test]
fn dice_parts_of_a_dice_node_only() {
    let node: Node<&str> = rollatorium::build::dice(4, 6).build();
    match rollatorium::eval::dice_parts(&node) {
        Ok((Some(Node::Literal(count)), DiceSize::Value(size))) => {
            assert_eq!(v(*count), 4.0);
            assert_eq!(**size, Node::Literal(n(6.0)));
        }
        other => panic!("expected the parts of 4d6, got {:?}", other),
    }
    let percent: Node<&str> = rollatorium::build::d_percent().build();
    assert!(matches!(rollatorium::eval::dice_parts(&percent), Ok((None, DiceSize::Percent))));
    let literal: Node<&str> = Node::Literal(n(3.0));
    assert_eq!(
        rollatorium::eval::dice_parts(&literal).err(),
        Some(RollatoriumError::Eval("DiceWithOps must contain a dice node".to_string()))
    );
}
