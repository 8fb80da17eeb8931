use language::check::{CheckStep, ImplementationCall, OperatorCheck};
use language::effects::{Effects, OperationData};

fn b(s: &str) -> Vec<u8> {
    s.as_bytes().to_vec()
}

fn op(name: &str, pattern: &str, priority: Option<i64>) -> OperationData {
    OperationData { name: name.to_string(), pattern: Some(b(pattern)), priority, parse_left: None }
}

fn other(h: u64) -> Effects {
    Effects::Other(h)
}

fn lookup(patterns: &[&str]) -> CheckStep {
    CheckStep::Lookup(patterns.iter().map(|p| b(p)).collect())
}

fn resume(check: OperatorCheck, answer: Option<OperationData>) -> (OperatorCheck, CheckStep) {
    assert!(check.can_resume(&answer));
    check.resume(answer)
}

#[test]
fn a_plain_operation_is_looked_up_and_called() {
    let values = vec![other(1), other(2)];
    assert!(OperatorCheck::can_start(&b("{}+{}"), &values));
    let (check, step) = OperatorCheck::start(b("{}+{}"), values);
    assert_eq!(step, lookup(&["{}+{}"]));
    let (_, step) = resume(check, Some(op("Add", "{}+{}", None)));
    assert_eq!(
        step,
        CheckStep::Call(ImplementationCall {
            calling: other(1),
            name: "Add".to_string(),
            arguments: vec![other(2)],
        })
    );
}

#[test]
fn an_operation_without_operands_is_called_on_nothing() {
    let (check, step) = OperatorCheck::start(b("foo"), vec![]);
    assert_eq!(step, lookup(&["foo"]));
    let (_, step) = resume(check, Some(op("Foo", "foo", None)));
    assert_eq!(
        step,
        CheckStep::Call(ImplementationCall {
            calling: Effects::NOP,
            name: "Foo".to_string(),
            arguments: vec![],
        })
    );
}

#[test]
fn a_missing_operation_fails_the_check() {
    let (check, step) = OperatorCheck::start(b("{}+{}"), vec![other(1), other(2)]);
    assert_eq!(step, lookup(&["{}+{}"]));
    let (check, step) = resume(check, None);
    assert_eq!(step, CheckStep::Failed(b("{}+{}"), vec![other(1), other(2)]));
    // Once done, a check stays done.
    let (_, step) = resume(check, Some(op("Add", "{}+{}", None)));
    assert_eq!(step, CheckStep::Failed(b("{}+{}"), vec![other(1), other(2)]));
}

#[test]
fn infix_operations_are_combined_then_regrouped() {
    // 1 + 2 * 3, parsed as Add(1, Mul(2, 3)).
    let values = vec![
        other(1),
        Effects::Operation(b("{}*{}"), vec![other(2), other(3)]),
    ];
    let (check, step) = OperatorCheck::start(b("{}+{}"), values);
    assert_eq!(step, lookup(&["{}+{}"]));
    // The front of the combination is the addition; the rest is looked up.
    let (check, step) = resume(check, Some(op("Add", "{}+{}", Some(1))));
    assert_eq!(step, lookup(&["{}*{}"]));
    let (_, step) = resume(check, Some(op("Mul", "{}*{}", Some(2))));
    assert_eq!(
        step,
        CheckStep::Call(ImplementationCall {
            calling: other(1),
            name: "Add".to_string(),
            arguments: vec![Effects::Operation(b("{}*{}"), vec![other(2), other(3)])],
        })
    );
}

#[test]
fn a_tighter_outer_operation_is_regrouped_first() {
    // 1 * 2 + 3 arrives as Mul(1, Add(2, 3)) and becomes Add(Mul(1, 2), 3).
    let values = vec![
        other(1),
        Effects::Operation(b("{}+{}"), vec![other(2), other(3)]),
    ];
    let (check, step) = OperatorCheck::start(b("{}*{}"), values);
    assert_eq!(step, lookup(&["{}*{}"]));
    let (check, step) = resume(check, Some(op("Mul", "{}*{}", Some(2))));
    assert_eq!(step, lookup(&["{}+{}"]));
    let (_, step) = resume(check, Some(op("Add", "{}+{}", Some(1))));
    assert_eq!(
        step,
        CheckStep::Call(ImplementationCall {
            calling: Effects::Operation(b("{}*{}"), vec![other(1), other(2)]),
            name: "Add".to_string(),
            arguments: vec![other(3)],
        })
    );
}

#[test]
fn a_combination_found_whole_takes_all_operands() {
    // `{}[{}` followed by `{}]` forms the index operation `{}[{}]`.
    let values = vec![other(1), Effects::Operation(b("{}]"), vec![other(2)])];
    let (check, step) = OperatorCheck::start(b("{}[{}"), values);
    assert_eq!(step, lookup(&["{}[{}]"]));
    let (_, step) = resume(check, Some(op("Index", "{}[{}]", None)));
    assert_eq!(
        step,
        CheckStep::Call(ImplementationCall {
            calling: other(1),
            name: "Index".to_string(),
            arguments: vec![other(2)],
        })
    );
}

#[test]
fn when_the_combination_is_unknown_each_side_is_looked_up() {
    let values = vec![other(1), Effects::Operation(b("{}]"), vec![other(2)])];
    let (check, step) = OperatorCheck::start(b("{}[{}"), values);
    assert_eq!(step, lookup(&["{}[{}]"]));
    let (check, step) = resume(check, None);
    assert_eq!(step, lookup(&["{}[{}"]));
    let (check, step) = resume(check, Some(op("Open", "{}[{}", Some(0))));
    assert_eq!(step, lookup(&["{}]"]));
    let (_, step) = resume(check, Some(op("Close", "{}]", Some(0))));
    // Equal priorities, no left grouping: the outer operation takes the operand.
    assert_eq!(
        step,
        CheckStep::Call(ImplementationCall {
            calling: Effects::Operation(b("{}[{}"), vec![other(1), other(2)]),
            name: "Close".to_string(),
            arguments: vec![],
        })
    );
}

#[test]
fn a_failed_side_lookup_fails_the_check() {
    let values = vec![other(1), Effects::Operation(b("{}]"), vec![other(2)])];
    let (check, _) = OperatorCheck::start(b("{}[{}"), values);
    let (check, _) = resume(check, None);
    let (check, _) = resume(check, Some(op("Open", "{}[{}", Some(0))));
    let (_, step) = resume(check, None);
    // The failure names the operation and the operands as they were given.
    assert_eq!(
        step,
        CheckStep::Failed(
            b("{}[{}"),
            vec![other(1), Effects::Operation(b("{}]"), vec![other(2)])]
        )
    );

    let values = vec![other(1), Effects::Operation(b("{}]"), vec![other(2)])];
    let (check, _) = OperatorCheck::start(b("{}[{}"), values);
    let (check, _) = resume(check, None);
    let (_, step) = resume(check, None);
    assert!(matches!(step, CheckStep::Failed(..)));
}

#[test]
fn an_operation_inside_an_array_combines() {
    // `[{+}` with its operands in an array whose last item is `{}]`.
    let values = vec![Effects::CreateArray(vec![
        other(1),
        Effects::Operation(b("{}]"), vec![other(2)]),
    ])];
    let (check, step) = OperatorCheck::start(b("[{}"), values);
    assert_eq!(step, lookup(&["[{}]"]));
    let (_, step) = resume(check, Some(op("List", "[{+}]", None)));
    assert_eq!(
        step,
        CheckStep::Call(ImplementationCall {
            calling: Effects::CreateArray(vec![other(1), other(2)]),
            name: "List".to_string(),
            arguments: vec![],
        })
    );
}

#[test]
fn a_spread_slot_wraps_the_first_operand() {
    let (check, step) = OperatorCheck::start(b("[{+}]"), vec![other(1), other(2)]);
    assert_eq!(step, lookup(&["[{+}]"]));
    let (_, step) = resume(check, Some(op("List", "[{+}]", None)));
    assert_eq!(
        step,
        CheckStep::Call(ImplementationCall {
            calling: other(2),
            name: "List".to_string(),
            arguments: vec![Effects::CreateArray(vec![other(1)])],
        })
    );

    // A first operand that is already an array stays where it is.
    let (check, _) = OperatorCheck::start(
        b("[{+}]"),
        vec![Effects::CreateArray(vec![]), other(1)],
    );
    let (_, step) = resume(check, Some(op("List", "[{+}]", None)));
    assert_eq!(
        step,
        CheckStep::Call(ImplementationCall {
            calling: Effects::CreateArray(vec![]),
            name: "List".to_string(),
            arguments: vec![other(1)],
        })
    );
}

#[test]
fn an_array_that_does_not_end_in_an_operation_is_dropped() {
    let values = vec![
        other(1),
        Effects::CreateArray(vec![Effects::CreateArray(vec![]), other(2)]),
    ];
    assert!(OperatorCheck::can_start(&b("{}+{}"), &values));
    let (check, step) = OperatorCheck::start(b("{}+{}"), values);
    assert_eq!(step, lookup(&["{}+{}"]));
    let (_, step) = resume(check, Some(op("Add", "{}+{}", None)));
    assert_eq!(
        step,
        CheckStep::Call(ImplementationCall {
            calling: other(1),
            name: "Add".to_string(),
            arguments: vec![],
        })
    );
}

#[test]
fn an_empty_array_stays() {
    let values = vec![other(1), Effects::CreateArray(vec![])];
    let (check, _) = OperatorCheck::start(b("{}+{}"), values);
    let (_, step) = resume(check, Some(op("Add", "{}+{}", None)));
    assert_eq!(
        step,
        CheckStep::Call(ImplementationCall {
            calling: other(1),
            name: "Add".to_string(),
            arguments: vec![Effects::CreateArray(vec![])],
        })
    );
}

#[test]
fn inputs_that_cannot_be_checked_are_recognised() {
    // An array whose last item does not combine needs an array before it.
    assert!(!OperatorCheck::can_start(&b("{}+{}"), &vec![Effects::CreateArray(vec![other(1)])]));
    assert!(!OperatorCheck::can_start(
        &b("{}+{}"),
        &vec![Effects::CreateArray(vec![other(1), other(2)])]
    ));
    // An infix inner pattern too short to cut.
    assert!(!OperatorCheck::can_start(&b("{}+{}"), &vec![Effects::Operation(b("{}"), vec![])]));
    // A found operation without a pattern.
    let (check, _) = OperatorCheck::start(b("{}+{}"), vec![other(1)]);
    let nameless = OperationData { name: "X".to_string(), pattern: None, priority: None, parse_left: None };
    assert!(!check.can_resume(&Some(nameless)));
    // A spread slot with no operand.
    let (check, _) = OperatorCheck::start(b("[{+}]"), vec![]);
    assert!(!check.can_resume(&Some(op("List", "[{+}]", None))));
    assert!(check.can_resume(&None));
}

/// Drives a check with the given answers, in order, and counts the lookups.
fn run(operation: &str, values: Vec<Effects>, answers: Vec<Option<OperationData>>) -> (usize, CheckStep) {
    let (mut check, mut step) = OperatorCheck::start(b(operation), values);
    let mut answers = answers.into_iter();
    let mut lookups = 0;
    while let CheckStep::Lookup(_) = step {
        lookups += 1;
        let answer = answers.next().unwrap_or(None);
        let (next, next_step) = resume(check, answer);
        check = next;
        step = next_step;
    }
    (lookups, step)
}

#[test]
fn a_check_asks_for_three_lookups_at_most() {
    let values = || vec![other(1), Effects::Operation(b("{}]"), vec![other(2)])];
    let open = || Some(op("Open", "{}[{}", Some(0)));
    let close = || Some(op("Close", "{}]", Some(0)));
    assert_eq!(run("{}[{}", values(), vec![None, open(), close()]).0, 3);
    assert_eq!(run("{}[{}", values(), vec![None, open(), None]), (3, CheckStep::Failed(b("{}[{}"), values())));
    assert_eq!(run("{}[{}", values(), vec![None, None]), (2, CheckStep::Failed(b("{}[{}"), values())));
    assert_eq!(run("{}[{}", values(), vec![Some(op("Index", "{}[{}]", None))]).0, 1);
    assert_eq!(
        run("{}+{}", vec![other(1)], vec![None]),
        (1, CheckStep::Failed(b("{}+{}"), vec![other(1)]))
    );
}
