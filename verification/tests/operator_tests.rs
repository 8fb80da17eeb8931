use language::effects::{Effects, OperationData};
use language::operator::{assign_with_priority, binds_tighter};

fn b(s: &str) -> Vec<u8> {
    s.as_bytes().to_vec()
}

fn op(name: &str, pattern: &str, priority: Option<i64>, parse_left: Option<bool>) -> OperationData {
    OperationData {
        name: name.to_string(),
        pattern: Some(b(pattern)),
        priority,
        parse_left,
    }
}

fn leaves(e: &Effects, out: &mut Vec<u64>) {
    match e {
        Effects::Operation(_, args) | Effects::CreateArray(args) => {
            for a in args {
                leaves(a, out);
            }
        }
        Effects::Other(h) => out.push(*h),
        Effects::NOP => out.push(u64::MAX),
    }
}

fn leaves_of(es: &[Effects]) -> Vec<u64> {
    let mut out = Vec::new();
    for e in es {
        leaves(e, &mut out);
    }
    out
}

#[test]
fn tighter_outer_operation_takes_the_operand() {
    let mul = op("Mul", "{}*{}", Some(2), None);
    let add = op("Add", "{}+{}", Some(1), None);
    // 1 * 2 + 3: the multiplication takes 2, and becomes the addition's first operand.
    let (root, operands) = assign_with_priority(
        b("{}*{}"),
        &mul,
        vec![Effects::Other(1)],
        b("{}+{}"),
        &add,
        vec![Effects::Other(2), Effects::Other(3)],
        false,
    );
    assert_eq!(root, Some(add));
    assert_eq!(
        operands,
        vec![
            Effects::Operation(b("{}*{}"), vec![Effects::Other(1), Effects::Other(2)]),
            Effects::Other(3),
        ]
    );
}

#[test]
fn looser_outer_operation_takes_the_whole_inner_one() {
    let mul = op("Mul", "{}*{}", Some(2), None);
    let add = op("Add", "{}+{}", Some(1), None);
    // 1 + 2 * 3: the multiplication stays whole, as the addition's last operand.
    let (root, operands) = assign_with_priority(
        b("{}+{}"),
        &add,
        vec![Effects::Other(1)],
        b("{}*{}"),
        &mul,
        vec![Effects::Other(2), Effects::Other(3)],
        false,
    );
    assert_eq!(root, Some(add));
    assert_eq!(
        operands,
        vec![
            Effects::Other(1),
            Effects::Operation(b("{}*{}"), vec![Effects::Other(2), Effects::Other(3)]),
        ]
    );
}

#[test]
fn equal_priorities_group_by_parse_left() {
    let sub = op("Sub", "{}-{}", Some(1), None);
    let add = op("Add", "{}+{}", Some(1), None);
    assert!(binds_tighter(&sub, &add));
    let (root, operands) = assign_with_priority(
        b("{}-{}"),
        &sub,
        vec![Effects::Other(1)],
        b("{}+{}"),
        &add,
        vec![Effects::Other(2), Effects::Other(3)],
        false,
    );
    assert_eq!(root, Some(add.clone()));
    assert_eq!(operands[0], Effects::Operation(b("{}-{}"), vec![Effects::Other(1), Effects::Other(2)]));

    let left = op("Pow", "{}^{}", Some(1), Some(true));
    assert!(!binds_tighter(&left, &add));
    let (root, operands) = assign_with_priority(
        b("{}^{}"),
        &left,
        vec![Effects::Other(1)],
        b("{}+{}"),
        &add,
        vec![Effects::Other(2), Effects::Other(3)],
        false,
    );
    assert_eq!(root, Some(left));
    assert_eq!(operands.len(), 2);
}

#[test]
fn missing_attributes_count_as_zero_and_false() {
    let plain = OperationData { name: "P".to_string(), pattern: None, priority: None, parse_left: None };
    let low = op("L", "{}<{}", Some(-1), None);
    assert!(binds_tighter(&plain, &low));
    assert!(binds_tighter(&plain, &plain));
    assert!(!binds_tighter(&low, &plain));
}

#[test]
fn the_operand_can_go_into_a_trailing_array() {
    let index = op("Index", "{}[{+}", Some(5), None);
    let close = op("Close", "{}]", Some(0), None);
    let (root, operands) = assign_with_priority(
        b("{}[{+}"),
        &index,
        vec![Effects::Other(1), Effects::CreateArray(vec![Effects::Other(2)])],
        b("{}]"),
        &close,
        vec![Effects::Other(3), Effects::Other(4)],
        true,
    );
    assert_eq!(root, Some(close));
    assert_eq!(
        operands,
        vec![
            Effects::Operation(
                b("{}[{+}"),
                vec![
                    Effects::Other(1),
                    Effects::CreateArray(vec![Effects::Other(2), Effects::Other(3)]),
                ]
            ),
            Effects::Other(4),
        ]
    );
}

#[test]
fn regrouping_keeps_operand_order() {
    let a = op("A", "{}+{}", Some(1), None);
    let m = op("M", "{}*{}", Some(2), None);
    for (outer, inner) in [(&a, &m), (&m, &a), (&a, &a)] {
        let values = vec![Effects::Other(1), Effects::Operation(b("{}~{}"), vec![Effects::Other(2)])];
        let inner_effects = vec![Effects::Other(3), Effects::NOP, Effects::Other(4)];
        let expected = {
            let mut v = leaves_of(&values);
            v.extend(leaves_of(&inner_effects));
            v
        };
        let (_, operands) = assign_with_priority(
            b("{}?{}"),
            outer,
            values,
            b("{}!{}"),
            inner,
            inner_effects,
            false,
        );
        assert_eq!(leaves_of(&operands), expected);
    }
}
