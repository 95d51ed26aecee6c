use rollatorium::ast::{BinaryOperator, DiceSize, SelectorKind, SetOperator, UnaryOperator};
use rollatorium::build::{d_percent, dice, die, lit, Compare, Roll};
use rollatorium::{Node, Number};

#[derive(Clone, Debug, PartialEq)]
enum Damage {
    Slashing,
    Fire,
}

fn n(x: f64) -> Number {
    Number { bits: x.to_bits() }
}

fn literal_value<T>(node: &Node<T>) -> f64 {
    match node {
        Node::Literal(v) => f64::from_bits(v.bits),
        _ => panic!("expected a literal"),
    }
}

#[test]
fn test_builder_tags_attach_at_wrapper_level() {
    // 4d6kh3 [Slashing] + 2d6 [Fire]
    let expr = Roll::<Damage>::dice(4, 6)
        .keep_highest(3)
        .tag(Damage::Slashing)
        .add(Roll::dice(2, 6).tag(Damage::Fire))
        .build();

    match expr {
        Node::Binary { left, right, .. } => {
            match *left {
                Node::Annotated { annotations, expr } => {
                    assert_eq!(annotations.len(), 1);
                    assert_eq!(annotations[0].tag, Damage::Slashing);
                    assert!(matches!(*expr, Node::DiceWithOps { .. }));
                }
                other => panic!("expected annotated dice on the left, got {:?}", other),
            }
            match *right {
                Node::Annotated { annotations, expr } => {
                    assert_eq!(annotations.len(), 1);
                    assert_eq!(annotations[0].tag, Damage::Fire);
                    assert!(matches!(*expr, Node::Dice { .. }));
                }
                other => panic!("expected annotated dice on the right, got {:?}", other),
            }
        }
        other => panic!("expected a binary sum, got {:?}", other),
    }
}

#[test]
fn test_builder_multiple_tags() {
    let expr = Roll::<&str>::dice(2, 8).tags(vec!["fire", "magic"]).build();
    match expr {
        Node::Annotated { annotations, .. } => {
            let tags: Vec<_> = annotations.iter().map(|a| a.tag).collect();
            assert_eq!(tags, ["fire", "magic"]);
        }
        other => panic!("expected annotated value, got {:?}", other),
    }
}

#[test]
fn dice_counts_and_faces_are_exact_literals() {
    match dice::<&str>(4, 6).build() {
        Node::Dice { num: Some(num), size: DiceSize::Value(size) } => {
            assert_eq!(literal_value(&num), 4.0);
            assert_eq!(literal_value(&size), 6.0);
        }
        other => panic!("expected dice, got {:?}", other),
    }
    match die::<&str>(20).build() {
        Node::Dice { num: None, size: DiceSize::Value(size) } => {
            assert_eq!(literal_value(&size), 20.0)
        }
        other => panic!("expected a die, got {:?}", other),
    }
    assert_eq!(
        d_percent::<&str>().build(),
        Node::Dice { num: None, size: DiceSize::Percent }
    );
}

#[test]
fn from_u32_matches_f64_from() {
    let samples = [0u32, 1, 2, 3, 5, 6, 7, 10, 100, 1023, 1024, 65535, 123456789, u32::MAX - 1, u32::MAX];
    for &x in samples.iter() {
        assert_eq!(Number::from_u32(x).bits, f64::from(x).to_bits(), "{}", x);
    }
    for x in 0u32..5000 {
        assert_eq!(Number::from_u32(x).bits, f64::from(x).to_bits(), "{}", x);
    }
}

#[test]
fn operations_append_to_one_dice_node() {
    // 6d6rr<3e==6
    let built = Roll::<&str>::dice(6, 6).reroll(Compare::Lt, n(3.0)).explode(Compare::Eq, n(6.0)).build();
    match built {
        Node::DiceWithOps { dice, operations } => {
            assert!(matches!(*dice, Node::Dice { .. }));
            assert_eq!(operations.len(), 2);
            assert_eq!(operations[0].operator, SetOperator::Reroll);
            assert_eq!(operations[0].selectors.len(), 1);
            assert_eq!(operations[0].selectors[0].kind, SelectorKind::LessThan);
            assert_eq!(literal_value(&operations[0].selectors[0].target), 3.0);
            assert_eq!(operations[1].operator, SetOperator::Explode);
            assert_eq!(operations[1].selectors[0].kind, SelectorKind::EqualTo);
            assert_eq!(literal_value(&operations[1].selectors[0].target), 6.0);
        }
        other => panic!("expected dice with operations, got {:?}", other),
    }
}

#[test]
fn every_combinator_builds_its_node() {
    let pairs: Vec<(fn(Roll<&'static str>, Roll<&'static str>) -> Roll<&'static str>, BinaryOperator)> = vec![
        (Roll::add, BinaryOperator::Add),
        (Roll::sub, BinaryOperator::Subtract),
        (Roll::mul, BinaryOperator::Multiply),
        (Roll::div, BinaryOperator::Divide),
        (Roll::int_div, BinaryOperator::IntDivide),
        (Roll::rem, BinaryOperator::Modulo),
        (Roll::eq, BinaryOperator::Equal),
        (Roll::ne, BinaryOperator::NotEqual),
        (Roll::gt, BinaryOperator::Greater),
        (Roll::ge, BinaryOperator::GreaterEqual),
        (Roll::lt, BinaryOperator::Less),
        (Roll::le, BinaryOperator::LessEqual),
    ];
    for (f, op) in pairs {
        match f(lit(n(1.0)), lit(n(2.0))).build() {
            Node::Binary { operator, left, right } => {
                assert_eq!(operator, op);
                assert_eq!(literal_value(&left), 1.0);
                assert_eq!(literal_value(&right), 2.0);
            }
            other => panic!("expected a binary node, got {:?}", other),
        }
    }
    assert_eq!(
        lit::<&str>(n(2.0)).neg().build(),
        Node::Unary { operator: UnaryOperator::Minus, operand: Box::new(Node::Literal(n(2.0))) }
    );
    assert_eq!(
        lit::<&str>(n(2.0)).pos().build(),
        Node::Unary { operator: UnaryOperator::Plus, operand: Box::new(Node::Literal(n(2.0))) }
    );
    let counted: Vec<(fn(Roll<&'static str>, u32) -> Roll<&'static str>, SetOperator, SelectorKind)> = vec![
        (Roll::keep_highest, SetOperator::Keep, SelectorKind::Highest),
        (Roll::keep_lowest, SetOperator::Keep, SelectorKind::Lowest),
        (Roll::drop_highest, SetOperator::Drop, SelectorKind::Highest),
        (Roll::drop_lowest, SetOperator::Drop, SelectorKind::Lowest),
    ];
    for (f, operator, kind) in counted {
        match f(dice(4, 6), 3).build() {
            Node::DiceWithOps { operations, .. } => {
                assert_eq!(operations.len(), 1);
                assert_eq!(operations[0].operator, operator);
                assert_eq!(operations[0].selectors[0].kind, kind);
                assert_eq!(literal_value(&operations[0].selectors[0].target), 3.0);
            }
            other => panic!("expected dice with operations, got {:?}", other),
        }
    }
    match dice::<&str>(2, 6).min(n(3.0)).max(n(5.0)).build() {
        Node::DiceWithOps { operations, .. } => {
            assert_eq!(operations[0].operator, SetOperator::Minimum);
            assert_eq!(operations[0].selectors[0].kind, SelectorKind::Literal);
            assert_eq!(operations[1].operator, SetOperator::Maximum);
            assert_eq!(literal_value(&operations[1].selectors[0].target), 5.0);
        }
        other => panic!("expected dice with operations, got {:?}", other),
    }
    let wheres: Vec<(fn(Roll<&'static str>, Compare, Number) -> Roll<&'static str>, SetOperator)> = vec![
        (Roll::keep_where, SetOperator::Keep),
        (Roll::drop_where, SetOperator::Drop),
        (Roll::reroll, SetOperator::Reroll),
        (Roll::reroll_once, SetOperator::RerollOnce),
        (Roll::reroll_add, SetOperator::RerollAdd),
        (Roll::explode, SetOperator::Explode),
    ];
    let compares = [
        (Compare::Gt, SelectorKind::GreaterThan),
        (Compare::Ge, SelectorKind::GreaterThanOrEqual),
        (Compare::Lt, SelectorKind::LessThan),
        (Compare::Le, SelectorKind::LessThanOrEqual),
        (Compare::Eq, SelectorKind::EqualTo),
        (Compare::Ne, SelectorKind::NotEqual),
    ];
    for (f, operator) in wheres {
        for (cmp, kind) in compares {
            match f(dice(4, 6), cmp, n(4.0)).build() {
                Node::DiceWithOps { operations, .. } => {
                    assert_eq!(operations[0].operator, operator);
                    assert_eq!(operations[0].selectors[0].kind, kind);
                }
                other => panic!("expected dice with operations, got {:?}", other),
            }
        }
    }
}

#[test]
fn operations_on_sets_and_other_nodes() {
    let built = rollatorium::build::set(vec![lit::<&str>(n(1.0)), lit(n(2.0))]).drop_where(Compare::Lt, n(9.0)).build();
    match built {
        Node::SetLiteral { elements, operations } => {
            assert_eq!(elements.len(), 2);
            assert_eq!(operations.len(), 1);
            assert_eq!(operations[0].operator, SetOperator::Drop);
        }
        other => panic!("expected a set, got {:?}", other),
    }
    // An operation on something that is neither dice nor a set wraps it.
    match lit::<&str>(n(5.0)).keep_highest(1).build() {
        Node::DiceWithOps { dice, operations } => {
            assert_eq!(*dice, Node::Literal(n(5.0)));
            assert_eq!(operations.len(), 1);
        }
        other => panic!("expected dice with operations, got {:?}", other),
    }
}

#[test]
fn tags_append_and_empty_tags_change_nothing() {
    let built = dice::<&str>(1, 20).tag("a").tags(vec!["b", "c"]).build();
    match built {
        Node::Annotated { expr, annotations } => {
            assert!(matches!(*expr, Node::Dice { .. }));
            let tags: Vec<_> = annotations.iter().map(|a| a.tag).collect();
            assert_eq!(tags, ["a", "b", "c"]);
        }
        other => panic!("expected annotated dice, got {:?}", other),
    }
    assert_eq!(dice::<&str>(1, 20).tags(vec![]).build(), dice::<&str>(1, 20).build());
}
