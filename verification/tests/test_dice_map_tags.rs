use rollatorium::ast::Annotation;
use rollatorium::build::{dice, Roll};
use rollatorium::{EvalResult, Node, Number, Value};

#[derive(Clone, Debug, PartialEq)]
enum Damage {
    Fire,
    Cold,
    Other,
}

impl From<&str> for Damage {
    fn from(value: &str) -> Self {
        match value {
            "fire" => Damage::Fire,
            "cold" => Damage::Cold,
            _ => Damage::Other,
        }
    }
}

fn n(x: f64) -> Number {
    Number { bits: x.to_bits() }
}

#[test]
fn node_map_tags_converts_str_to_enum() {
    let node = dice::<&str>(4, 6).tag("fire").build().map_tags(Damage::from);
    match node {
        Node::Annotated { annotations, expr } => {
            assert_eq!(annotations.len(), 1);
            assert_eq!(annotations[0].tag, Damage::Fire);
            assert_eq!(*expr, dice::<Damage>(4, 6).build());
        }
        other => panic!("expected annotated node, got {:?}", other),
    }
}

#[test]
fn node_map_tags_keeps_order_and_shape() {
    let node = Roll::<&str>::dice(3, 6)
        .keep_highest(2)
        .tags(vec!["cold", "unknown"])
        .add(Roll::die(4).tag("fire"))
        .build();
    let mapped = node.clone().map_tags(Damage::from);
    let expected = Roll::<Damage>::dice(3, 6)
        .keep_highest(2)
        .tags(vec![Damage::Cold, Damage::Other])
        .add(Roll::die(4).tag(Damage::Fire))
        .build();
    assert_eq!(mapped, expected);
    // Mapping the identity gives the tree back.
    assert_eq!(node.clone().map_tags(|t| t), node);
}

#[test]
fn eval_result_map_tags_keeps_totals() {
    let inner = EvalResult::<&str> { total: n(7.0), value: Value::Literal(n(7.0)) };
    let result = EvalResult {
        total: n(7.0),
        value: Value::Annotated {
            expr: Box::new(inner),
            annotations: vec![Annotation { tag: "fire" }, Annotation { tag: "x" }],
        },
    };
    let mapped = result.map_tags(Damage::from);
    assert_eq!(mapped.total.bits, 7.0f64.to_bits());
    match mapped.value {
        Value::Annotated { annotations, expr } => {
            let tags: Vec<_> = annotations.iter().map(|a| a.tag.clone()).collect();
            assert_eq!(tags, vec![Damage::Fire, Damage::Other]);
            assert_eq!(expr.total.bits, 7.0f64.to_bits());
        }
        other => panic!("expected annotated value, got {:?}", other),
    }
}

#[test]
fn map_tags_with_identity_and_composition() {
    let tree = || dice::<&str>(3, 6).keep_highest(2).tag("cold").add(dice(1, 4).tags(vec!["fire", "x"])).build();
    assert_eq!(tree().map_tags(|t| t), tree());
    let twice = tree().map_tags(Damage::from).map_tags(|d| format!("{d:?}"));
    let once = tree().map_tags(|t| format!("{:?}", Damage::from(t)));
    assert_eq!(twice, once);
}
