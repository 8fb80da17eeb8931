use vstd::prelude::*;

use crate::effects::{
    copy_bytes, duplicate_all, lemma_terms, operation_model, term, terms, Effects, OperationData, OperationModel,
    Term,
};
use crate::operator::{
    array_items, assign_defined, assign_with_priority, assigned, binds_tighter,
    lemma_assign_keeps_operand_order, lemma_leaves_of_concat, leaves, leaves_of, outer_binds_tighter,
};
use crate::pattern::{
    boundary, candidates, candidates_can_be_formed, candidates_defined, collapsed_len,
    collapsed_length, combination, combination_candidates, combine, contains_spread,
    ends_with_slot, has_spread, is_char_boundary, leading_slot, remainder, remainder_of,
    spread_at, spread_count, starts_with_slot, trailing_slot,
};

verus! {

// Checking an operation: the operation written with pattern `operation` has
// operands `values`. Where its last operand is itself an operation (possibly as
// the last item of an array literal), the two patterns may together name one
// longer operation (`{}[{}` followed by `{}]` names `{}[{}]`), or the two
// operations may have to be regrouped by priority (`{}*{}` followed by
// `{}+{}`). Which operations exist is looked up by pattern, and each lookup
// may have to wait for the declarations to be parsed: the check is therefore
// a sequence of steps, each of which asks for a lookup, fails, or hands back
// the call to check.

/// The call that a checked operation amounts to: the implementation named
/// `name`, called on `calling` with the further `arguments`.
#[derive(Debug, PartialEq, Eq)]
pub struct ImplementationCall {
    pub calling: Effects,
    pub name: String,
    pub arguments: Vec<Effects>,
}

pub struct CallModel {
    pub calling: Term,
    pub name: Seq<char>,
    pub arguments: Seq<Term>,
}

/// What the check asks for next.
#[derive(Debug, PartialEq, Eq)]
pub enum CheckStep {
    /// Look up the operation that one of these patterns names, and hand the
    /// answer to `OperatorCheck::resume`.
    Lookup(Vec<Vec<u8>>),
    /// A pattern that had to name an operation names none: the check fails.
    /// The operation and the operands that the check started from come back,
    /// for the error to name them.
    Failed(Vec<u8>, Vec<Effects>),
    /// The check is done: this call is what the operation amounts to.
    Call(ImplementationCall),
}

pub enum StepModel {
    Lookup(Seq<Seq<u8>>),
    Failed,
    Call(CallModel),
}

pub open spec fn call_model(c: ImplementationCall) -> CallModel {
    CallModel { calling: term(c.calling), name: c.name@, arguments: terms(c.arguments@) }
}

pub open spec fn step_model(s: CheckStep) -> StepModel {
    match s {
        CheckStep::Lookup(ps) => StepModel::Lookup(ps@.map_values(|p: Vec<u8>| p@)),
        CheckStep::Failed(..) => StepModel::Failed,
        CheckStep::Call(c) => StepModel::Call(call_model(c)),
    }
}

#[derive(Debug)]
enum Phase {
    Combined {
        operation: Vec<u8>,
        inner_operation: Vec<u8>,
        combined: Vec<u8>,
        values: Vec<Effects>,
        array: Option<Vec<Effects>>,
        effects: Vec<Effects>,
    },
    Remainder {
        found: OperationData,
        operation: Vec<u8>,
        inner_operation: Vec<u8>,
        values: Vec<Effects>,
        effects: Vec<Effects>,
        inner_array: bool,
    },
    Outer {
        operation: Vec<u8>,
        inner_operation: Vec<u8>,
        values: Vec<Effects>,
        effects: Vec<Effects>,
    },
    Inner {
        outer: OperationData,
        operation: Vec<u8>,
        inner_operation: Vec<u8>,
        values: Vec<Effects>,
        effects: Vec<Effects>,
    },
    Final { values: Vec<Effects> },
    Done,
}

/// Where a check stands between two lookups.
#[derive(Debug)]
pub struct OperatorCheck {
    origin: Vec<u8>,
    operands: Vec<Effects>,
    phase: Phase,
}

/// The state of a check.
pub enum PhaseModel {
    /// Waiting for the operation that the combination of the outer pattern and
    /// the inner one names. `array` holds the items of the array literal whose
    /// last item was the inner operation, where there was one.
    Combined {
        operation: Seq<u8>,
        inner_operation: Seq<u8>,
        combined: Seq<u8>,
        values: Seq<Term>,
        array: Option<Seq<Term>>,
        effects: Seq<Term>,
    },
    /// The front of the combination named `found`; waiting for the operation
    /// that the rest of it names.
    Remainder {
        found: OperationModel,
        operation: Seq<u8>,
        inner_operation: Seq<u8>,
        values: Seq<Term>,
        effects: Seq<Term>,
        inner_array: bool,
    },
    /// Waiting for the outer operation on its own.
    Outer { operation: Seq<u8>, inner_operation: Seq<u8>, values: Seq<Term>, effects: Seq<Term> },
    /// Waiting for the inner operation on its own.
    Inner {
        outer: OperationModel,
        operation: Seq<u8>,
        inner_operation: Seq<u8>,
        values: Seq<Term>,
        effects: Seq<Term>,
    },
    /// Waiting for the operation to call with these operands.
    Final { values: Seq<Term> },
    /// The check has answered.
    Done,
}

pub open spec fn optional_terms(a: Option<Vec<Effects>>) -> Option<Seq<Term>> {
    match a {
        Some(v) => Some(terms(v@)),
        None => None,
    }
}

impl View for OperatorCheck {
    type V = PhaseModel;

    closed spec fn view(&self) -> PhaseModel {
        phase_model(self.phase)
    }
}

impl OperatorCheck {
    /// The pattern of the operation that the check started from.
    pub closed spec fn origin_operation(&self) -> Seq<u8> {
        self.origin@
    }

    /// The operands that the check started from.
    pub closed spec fn origin_values(&self) -> Seq<Term> {
        terms(self.operands@)
    }
}

/// The state of the phase, as a value.
spec fn phase_model(p: Phase) -> PhaseModel {
    match p {
        Phase::Combined { operation, inner_operation, combined, values, array, effects } =>
            PhaseModel::Combined {
            operation: operation@,
            inner_operation: inner_operation@,
            combined: combined@,
            values: terms(values@),
            array: optional_terms(array),
            effects: terms(effects@),
        },
        Phase::Remainder { found, operation, inner_operation, values, effects, inner_array } =>
            PhaseModel::Remainder {
            found: found@,
            operation: operation@,
            inner_operation: inner_operation@,
            values: terms(values@),
            effects: terms(effects@),
            inner_array,
        },
        Phase::Outer { operation, inner_operation, values, effects } => PhaseModel::Outer {
            operation: operation@,
            inner_operation: inner_operation@,
            values: terms(values@),
            effects: terms(effects@),
        },
        Phase::Inner { outer, operation, inner_operation, values, effects } =>
            PhaseModel::Inner {
            outer: outer@,
            operation: operation@,
            inner_operation: inner_operation@,
            values: terms(values@),
            effects: terms(effects@),
        },
        Phase::Final { values } => PhaseModel::Final { values: terms(values@) },
        Phase::Done => PhaseModel::Done,
    }
}

// ---------------------------------------------------------------------------
// The specification of each step.
// ---------------------------------------------------------------------------

/// The pattern and the operands of an operation, and nothing for any other value.
pub open spec fn operation_parts(t: Term) -> (Seq<u8>, Seq<Term>) {
    match t {
        Term::Operation(p, a) => (p, a),
        _ => (Seq::empty(), Seq::empty()),
    }
}

/// `t` is an operation whose pattern can fill the trailing slot of `op`.
pub open spec fn combines(op: Seq<u8>, t: Term) -> bool {
    t is Operation && trailing_slot(op) && leading_slot(operation_parts(t).0)
}

/// `t` is an array literal with one item at least.
pub open spec fn nonempty_array(t: Term) -> bool {
    t is CreateArray && array_items(t).len() > 0
}

/// The operands after the one that the pattern's spread slot takes has been
/// wrapped in an array: where the pattern has a spread slot `{+}` and the first
/// operand is not already an array, the first operand moves to the end, as an
/// array of one item.
pub open spec fn call_operands(pattern: Seq<u8>, values: Seq<Term>) -> Seq<Term> {
    if has_spread(pattern) && !(values[0] is CreateArray) {
        values.drop_first().push(Term::CreateArray(seq![values[0]]))
    } else {
        values
    }
}

/// The call that operation `op` amounts to with operands `values`: the first
/// operand is what the implementation is called on (nothing where there is
/// none), the others are its arguments.
pub open spec fn finished(op: OperationModel, values: Seq<Term>) -> CallModel {
    let operands = call_operands(op.pattern.unwrap(), values);
    CallModel {
        calling: if operands.len() > 0 {
            operands[0]
        } else {
            Term::Nop
        },
        name: op.name,
        arguments: if operands.len() > 0 {
            operands.drop_first()
        } else {
            operands
        },
    }
}

/// The call can be formed: the operation has a pattern, and where that has a
/// spread slot there is an operand for it.
pub open spec fn finish_defined(op: OperationModel, values: Seq<Term>) -> bool {
    &&& op.pattern is Some
    &&& has_spread(op.pattern.unwrap()) ==> values.len() > 0
}

pub open spec fn combining(op: Seq<u8>, t: Term, rest: Seq<Term>, array: Option<Seq<Term>>) -> (
    PhaseModel,
    StepModel,
) {
    let (inner, effects) = operation_parts(t);
    (
        PhaseModel::Combined {
            operation: op,
            inner_operation: inner,
            combined: combination(op, inner),
            values: rest,
            array,
            effects,
        },
        StepModel::Lookup(candidates(op, inner)),
    )
}

pub open spec fn awaiting_final(op: Seq<u8>, values: Seq<Term>) -> (PhaseModel, StepModel) {
    (PhaseModel::Final { values }, StepModel::Lookup(seq![op]))
}

/// How a check of operation `op` on operands `values` starts. Where the last
/// operand is an operation (or an array literal whose last item is one) whose
/// pattern can fill the trailing slot of `op`, the combination of the two is
/// looked up; otherwise `op` itself is. An array literal whose last item is
/// not such an operation is left out of the operands.
pub open spec fn started(op: Seq<u8>, values: Seq<Term>) -> (PhaseModel, StepModel) {
    if values.len() > 0 && nonempty_array(values.last()) {
        let items = array_items(values.last());
        if combines(op, items.last()) {
            combining(op, items.last(), values.drop_last(), Some(items.drop_last()))
        } else {
            awaiting_final(op, values.drop_last())
        }
    } else if values.len() > 0 && combines(op, values.last()) {
        combining(op, values.last(), values.drop_last(), None)
    } else {
        awaiting_final(op, values)
    }
}

/// The check can start without failing: the candidates can be formed, and an
/// array literal that is left out has, before its last item, an array literal.
pub open spec fn start_defined(op: Seq<u8>, values: Seq<Term>) -> bool {
    if values.len() > 0 && nonempty_array(values.last()) {
        let items = array_items(values.last());
        if combines(op, items.last()) {
            candidates_defined(op, operation_parts(items.last()).0)
        } else {
            items.len() >= 2 && items[items.len() - 2] is CreateArray
        }
    } else if values.len() > 0 && combines(op, values.last()) {
        candidates_defined(op, operation_parts(values.last()).0)
    } else {
        true
    }
}

/// The operands once the inner operation's operands join the outer ones.
pub open spec fn joined(values: Seq<Term>, array: Option<Seq<Term>>, effects: Seq<Term>) -> Seq<
    Term,
> {
    match array {
        Some(a) => values.push(Term::CreateArray(a + effects)),
        None => values + effects,
    }
}

/// The outer operands, with the array literal put back where there was one.
pub open spec fn with_array(values: Seq<Term>, array: Option<Seq<Term>>) -> Seq<Term> {
    match array {
        Some(a) => values.push(Term::CreateArray(a)),
        None => values,
    }
}

/// The call after the two operations have been regrouped.
pub open spec fn regrouped_call(
    operation: Seq<u8>,
    found: OperationModel,
    values: Seq<Term>,
    inner_operation: Seq<u8>,
    inner: OperationModel,
    effects: Seq<Term>,
    inner_array: bool,
) -> CallModel {
    let (outer, operands) = assigned(
        operation,
        found,
        values,
        inner_operation,
        inner,
        effects,
        inner_array,
    );
    finished(outer.unwrap(), operands)
}

/// How a check goes on once a lookup has answered `answer`.
pub open spec fn resumed(p: PhaseModel, answer: Option<OperationModel>) -> (PhaseModel, StepModel) {
    match p {
        PhaseModel::Combined { operation, inner_operation, combined, values, array, effects } =>
            match answer {
            Some(found) => {
                let pattern = found.pattern.unwrap();
                if pattern.len() >= combined.len() {
                    (PhaseModel::Done, StepModel::Call(finished(found, joined(values, array, effects))))
                } else {
                    let rest = remainder(combined, pattern);
                    (
                        PhaseModel::Remainder {
                            found,
                            operation: pattern,
                            inner_operation: rest,
                            values: with_array(values, array),
                            effects,
                            inner_array: array is Some,
                        },
                        StepModel::Lookup(seq![rest]),
                    )
                }
            },
            None => match array {
                Some(_) => (PhaseModel::Final { values }, StepModel::Lookup(seq![operation])),
                None => (
                    PhaseModel::Outer { operation, inner_operation, values, effects },
                    StepModel::Lookup(seq![operation]),
                ),
            },
        },
        PhaseModel::Remainder { found, operation, inner_operation, values, effects, inner_array } =>
            match answer {
            Some(inner) => (
                PhaseModel::Done,
                StepModel::Call(
                    regrouped_call(
                        operation,
                        found,
                        values,
                        inner_operation,
                        inner,
                        effects,
                        inner_array,
                    ),
                ),
            ),
            None => (PhaseModel::Done, StepModel::Failed),
        },
        PhaseModel::Outer { operation, inner_operation, values, effects } => match answer {
            Some(outer) => (
                PhaseModel::Inner { outer, operation, inner_operation, values, effects },
                StepModel::Lookup(seq![inner_operation]),
            ),
            None => (PhaseModel::Done, StepModel::Failed),
        },
        PhaseModel::Inner { outer, operation, inner_operation, values, effects } => match answer {
            Some(inner) => (
                PhaseModel::Done,
                StepModel::Call(
                    regrouped_call(operation, outer, values, inner_operation, inner, effects, false),
                ),
            ),
            None => (PhaseModel::Done, StepModel::Failed),
        },
        PhaseModel::Final { values } => match answer {
            Some(op) => (PhaseModel::Done, StepModel::Call(finished(op, values))),
            None => (PhaseModel::Done, StepModel::Failed),
        },
        PhaseModel::Done => (PhaseModel::Done, StepModel::Failed),
    }
}

/// The regrouping and the call can be formed.
pub open spec fn regroup_defined(
    found: OperationModel,
    values: Seq<Term>,
    inner: OperationModel,
    effects: Seq<Term>,
    inner_array: bool,
) -> bool {
    &&& assign_defined(found, inner, values, effects, inner_array)
    &&& if outer_binds_tighter(found, inner) {
        inner.pattern is Some
    } else {
        found.pattern is Some
    }
}

/// The check can go on without failing once the lookup has answered `answer`.
pub open spec fn resume_defined(p: PhaseModel, answer: Option<OperationModel>) -> bool {
    match p {
        PhaseModel::Combined { combined, values, array, effects, .. } => match answer {
            Some(found) => {
                &&& found.pattern is Some
                &&& if found.pattern.unwrap().len() >= combined.len() {
                    finish_defined(found, joined(values, array, effects))
                } else {
                    boundary(combined, collapsed_len(found.pattern.unwrap()))
                }
            },
            None => match array {
                Some(a) => a.len() > 0 && a.last() is CreateArray,
                None => true,
            },
        },
        PhaseModel::Remainder { found, values, effects, inner_array, .. } => match answer {
            Some(inner) => regroup_defined(found, values, inner, effects, inner_array),
            None => true,
        },
        PhaseModel::Inner { outer, values, effects, .. } => match answer {
            Some(inner) => regroup_defined(outer, values, inner, effects, false),
            None => true,
        },
        PhaseModel::Final { values } => match answer {
            Some(op) => finish_defined(op, values),
            None => true,
        },
        _ => true,
    }
}

// ---------------------------------------------------------------------------
// The steps.
// ---------------------------------------------------------------------------

/// The call that operation `found` amounts to with operands `values`.
pub fn finish_call(found: OperationData, values: Vec<Effects>) -> (c: ImplementationCall)
    requires
        finish_defined(found@, terms(values@)),
    ensures
        call_model(c) == finished(found@, terms(values@)),
{
    let ghost vs = terms(values@);
    proof {
        lemma_terms(values@);
    }
    let mut values = values;
    let pattern = match &found.pattern {
        Some(p) => p,
        None => {
            proof {
                assert(false);
            }
            return ImplementationCall { calling: Effects::NOP, name: found.name, arguments: values };
        },
    };
    if contains_spread(pattern) {
        let is_array = match &values[0] {
            Effects::CreateArray(_) => true,
            _ => false,
        };
        if !is_array {
            let first = values.remove(0);
            let mut single: Vec<Effects> = Vec::new();
            single.push(first);
            proof {
                lemma_terms(single@);
                assert(terms(single@) =~= seq![vs[0]]);
            }
            values.push(Effects::CreateArray(single));
        }
    }
    let ghost operands = values@;
    proof {
        lemma_terms(operands);
        assert(terms(operands) =~= call_operands(found@.pattern.unwrap(), vs));
    }
    let calling = if values.len() > 0 {
        values.remove(0)
    } else {
        Effects::NOP
    };
    proof {
        lemma_terms(values@);
        if operands.len() > 0 {
            assert(terms(values@) =~= terms(operands).drop_first());
        } else {
            assert(terms(values@) =~= terms(operands));
        }
    }
    ImplementationCall { calling, name: found.name, arguments: values }
}

fn combining_step(
    operation: Vec<u8>,
    inner_operation: Vec<u8>,
    effects: Vec<Effects>,
    values: Vec<Effects>,
    array: Option<Vec<Effects>>,
) -> (r: (Phase, CheckStep))
    requires
        trailing_slot(operation@),
        leading_slot(inner_operation@),
        candidates_defined(operation@, inner_operation@),
    ensures
        (phase_model(r.0), step_model(r.1)) == combining(
            operation@,
            Term::Operation(inner_operation@, terms(effects@)),
            terms(values@),
            optional_terms(array),
        ),
{
    let patterns = combination_candidates(&operation, &inner_operation);
    let combined = combine(&operation, &inner_operation);
    proof {
        assert(patterns@.map_values(|p: Vec<u8>| p@) =~= candidates(operation@, inner_operation@));
    }
    (
        Phase::Combined { operation, inner_operation, combined, values, array, effects },
        CheckStep::Lookup(patterns),
    )
}

fn lookup_of(pattern: &Vec<u8>) -> (s: CheckStep)
    ensures
        step_model(s) == StepModel::Lookup(seq![pattern@]),
{
    let mut patterns: Vec<Vec<u8>> = Vec::new();
    patterns.push(copy_bytes(pattern));
    proof {
        assert(patterns@.map_values(|p: Vec<u8>| p@) =~= seq![pattern@]);
    }
    CheckStep::Lookup(patterns)
}

fn final_step(operation: Vec<u8>, values: Vec<Effects>) -> (r: (Phase, CheckStep))
    ensures
        (phase_model(r.0), step_model(r.1)) == awaiting_final(operation@, terms(values@)),
{
    let step = lookup_of(&operation);
    (Phase::Final { values }, step)
}

fn first_step(operation: Vec<u8>, values: Vec<Effects>) -> (r: (Phase, CheckStep))
    requires
        start_defined(operation@, terms(values@)),
    ensures
        (phase_model(r.0), step_model(r.1)) == started(operation@, terms(values@)),
{
    let ghost vs = terms(values@);
    proof {
        lemma_terms(values@);
    }
    let mut values = values;
    if values.len() == 0 {
        return final_step(operation, values);
    }
    let last = values.pop().unwrap();
    proof {
        lemma_terms(values@);
        assert(terms(values@) =~= vs.drop_last());
        assert(term(last) == vs.last());
    }
    match last {
        Effects::CreateArray(items) => {
            if items.len() > 0 {
                let ghost all_items = items@;
                let mut items = items;
                let inner_last = items.pop().unwrap();
                proof {
                    lemma_terms(all_items);
                    lemma_terms(items@);
                    assert(terms(items@) =~= terms(all_items).drop_last());
                    assert(term(inner_last) == terms(all_items).last());
                }
                match inner_last {
                    Effects::Operation(inner_operation, effects) => {
                        if ends_with_slot(&operation) && starts_with_slot(&inner_operation) {
                            return combining_step(
                                operation,
                                inner_operation,
                                effects,
                                values,
                                Some(items),
                            );
                        }
                    },
                    _ => {},
                }
                // The operand is not one to combine with: it belongs to the
                // array literal before it, which is left out of the operands.
                final_step(operation, values)
            } else {
                values.push(Effects::CreateArray(items));
                proof {
                    lemma_terms(values@);
                    assert(terms(values@) =~= vs);
                }
                final_step(operation, values)
            }
        },
        Effects::Operation(inner_operation, effects) => {
            if ends_with_slot(&operation) && starts_with_slot(&inner_operation) {
                combining_step(operation, inner_operation, effects, values, None)
            } else {
                values.push(Effects::Operation(inner_operation, effects));
                proof {
                    lemma_terms(values@);
                    assert(terms(values@) =~= vs);
                }
                final_step(operation, values)
            }
        },
        other => {
            values.push(other);
            proof {
                lemma_terms(values@);
                assert(terms(values@) =~= vs);
            }
            final_step(operation, values)
        },
    }
}

fn regroup_step(
    operation: Vec<u8>,
    found: &OperationData,
    values: Vec<Effects>,
    inner_operation: Vec<u8>,
    inner: &OperationData,
    effects: Vec<Effects>,
    inner_array: bool,
) -> (r: (Phase, CheckStep))
    requires
        regroup_defined(found@, terms(values@), inner@, terms(effects@), inner_array),
    ensures
        phase_model(r.0) == PhaseModel::Done,
        step_model(r.1) == StepModel::Call(
            regrouped_call(
                operation@,
                found@,
                terms(values@),
                inner_operation@,
                inner@,
                terms(effects@),
                inner_array,
            ),
        ),
{
    let (outer, operands) = assign_with_priority(
        operation,
        found,
        values,
        inner_operation,
        inner,
        effects,
        inner_array,
    );
    proof {
        lemma_terms(operands@);
    }
    match outer {
        Some(outer) => {
            let call = finish_call(outer, operands);
            (Phase::Done, CheckStep::Call(call))
        },
        None => {
            proof {
                assert(false);
            }
            (Phase::Done, CheckStep::Failed(Vec::new(), Vec::new()))
        },
    }
}

fn failed(origin: &Vec<u8>, operands: &Vec<Effects>) -> (s: CheckStep)
    ensures
        step_model(s) == StepModel::Failed,
        s matches CheckStep::Failed(op, vals) && op@ == origin@ && terms(vals@) == terms(operands@),
{
    CheckStep::Failed(copy_bytes(origin), duplicate_all(operands))
}

fn next_step(
    phase: Phase,
    answer: Option<OperationData>,
    origin: &Vec<u8>,
    operands: &Vec<Effects>,
) -> (r: (Phase, CheckStep))
    requires
        resume_defined(phase_model(phase), operation_model(answer)),
    ensures
        (phase_model(r.0), step_model(r.1)) == resumed(phase_model(phase), operation_model(answer)),
        r.1 matches CheckStep::Failed(op, vals) ==> op@ == origin@ && terms(vals@) == terms(operands@),
{
    match phase {
        Phase::Combined { operation, inner_operation, combined, values, array, effects } => {
            match answer {
                Some(found) => {
                    let pattern = match &found.pattern {
                        Some(p) => copy_bytes(p),
                        None => {
                            proof {
                                assert(false);
                            }
                            return (Phase::Done, failed(origin, operands));
                        },
                    };
                    let ghost vs = terms(values@);
                    let ghost es = terms(effects@);
                    let ghost arr = optional_terms(array);
                    proof {
                        lemma_terms(values@);
                        lemma_terms(effects@);
                    }
                    let mut values = values;
                    if pattern.len() >= combined.len() {
                        let mut effects = effects;
                        match array {
                            Some(items) => {
                                let ghost old_items = items@;
                                let mut items = items;
                                items.append(&mut effects);
                                proof {
                                    lemma_terms(old_items);
                                    lemma_terms(items@);
                                    assert(terms(items@) =~= terms(old_items) + es);
                                }
                                values.push(Effects::CreateArray(items));
                            },
                            None => {
                                values.append(&mut effects);
                            },
                        }
                        proof {
                            lemma_terms(values@);
                            assert(terms(values@) =~= joined(vs, arr, es));
                        }
                        let call = finish_call(found, values);
                        (Phase::Done, CheckStep::Call(call))
                    } else {
                        let inner_array = match array {
                            Some(items) => {
                                values.push(Effects::CreateArray(items));
                                true
                            },
                            None => false,
                        };
                        proof {
                            lemma_terms(values@);
                            assert(terms(values@) =~= with_array(vs, arr));
                        }
                        let rest = remainder_of(&combined, &pattern);
                        let step = lookup_of(&rest);
                        (
                            Phase::Remainder {
                                    found,
                                    operation: pattern,
                                    inner_operation: rest,
                                    values,
                                    effects,
                                    inner_array,
                                },
                            step,
                        )
                    }
                },
                None => {
                    match array {
                        // The inner operation belongs to the array literal,
                        // which is left out of the operands.
                        Some(_) => {
                            let step = lookup_of(&operation);
                            (Phase::Final { values }, step)
                        },
                        None => {
                            let step = lookup_of(&operation);
                            (
                                Phase::Outer {
                                        operation,
                                        inner_operation,
                                        values,
                                        effects,
                                    },
                                step,
                            )
                        },
                    }
                },
            }
        },
        Phase::Remainder { found, operation, inner_operation, values, effects, inner_array } => {
            match answer {
                Some(inner) => regroup_step(
                    operation,
                    &found,
                    values,
                    inner_operation,
                    &inner,
                    effects,
                    inner_array,
                ),
                None => (Phase::Done, failed(origin, operands)),
            }
        },
        Phase::Outer { operation, inner_operation, values, effects } => {
            match answer {
                Some(outer) => {
                    let step = lookup_of(&inner_operation);
                    (
                        Phase::Inner {
                                outer,
                                operation,
                                inner_operation,
                                values,
                                effects,
                            },
                        step,
                    )
                },
                None => (Phase::Done, failed(origin, operands)),
            }
        },
        Phase::Inner { outer, operation, inner_operation, values, effects } => {
            match answer {
                Some(inner) => regroup_step(
                    operation,
                    &outer,
                    values,
                    inner_operation,
                    &inner,
                    effects,
                    false,
                ),
                None => (Phase::Done, failed(origin, operands)),
            }
        },
        Phase::Final { values } => {
            match answer {
                Some(op) => {
                    let call = finish_call(op, values);
                    (Phase::Done, CheckStep::Call(call))
                },
                None => (Phase::Done, failed(origin, operands)),
            }
        },
        Phase::Done => (Phase::Done, failed(origin, operands)),
    }
}

impl OperatorCheck {
    /// Starts the check of the operation with pattern `operation` on operands
    /// `values`; see `started`.
    pub fn start(operation: Vec<u8>, values: Vec<Effects>) -> (r: (OperatorCheck, CheckStep))
        requires
            start_defined(operation@, terms(values@)),
        ensures
            (r.0@, step_model(r.1)) == started(operation@, terms(values@)),
            r.0.origin_operation() == operation@,
            r.0.origin_values() == terms(values@),
    {
        let origin = copy_bytes(&operation);
        let operands = duplicate_all(&values);
        let (phase, step) = first_step(operation, values);
        (OperatorCheck { origin, operands, phase }, step)
    }

    /// Goes on with the check once the lookup it asked for has answered
    /// `answer` (`None` where no pattern named an operation); see `resumed`.
    /// A failing step hands back the operation and operands the check started
    /// from.
    pub fn resume(self, answer: Option<OperationData>) -> (r: (OperatorCheck, CheckStep))
        requires
            resume_defined(self@, operation_model(answer)),
        ensures
            (r.0@, step_model(r.1)) == resumed(self@, operation_model(answer)),
            r.0.origin_operation() == self.origin_operation(),
            r.0.origin_values() == self.origin_values(),
            r.1 matches CheckStep::Failed(op, vals) ==> op@ == self.origin_operation() && terms(
                vals@,
            ) == self.origin_values(),
    {
        let OperatorCheck { origin, operands, phase } = self;
        let (phase, step) = next_step(phase, answer, &origin, &operands);
        (OperatorCheck { origin, operands, phase }, step)
    }
}

/// Whether `e` is an array literal.
fn is_array(e: &Effects) -> (b: bool)
    ensures
        b == (term(*e) is CreateArray),
{
    match e {
        Effects::CreateArray(_) => true,
        _ => false,
    }
}

/// Whether the call for operation `op` can be formed on operands that number
/// `count`; see `finish_defined`.
fn call_can_be_formed(op: &OperationData, count: usize) -> (b: bool)
    ensures
        b == (op@.pattern is Some && (has_spread(op@.pattern.unwrap()) ==> count > 0)),
{
    match &op.pattern {
        Some(p) => !contains_spread(p) || count > 0,
        None => false,
    }
}

/// Whether regrouping and the call can be formed; see `regroup_defined`.
fn regroup_can_be_formed(
    found: &OperationData,
    values: &Vec<Effects>,
    inner: &OperationData,
    effects: &Vec<Effects>,
    inner_array: bool,
) -> (b: bool)
    ensures
        b == regroup_defined(found@, terms(values@), inner@, terms(effects@), inner_array),
{
    proof {
        lemma_terms(values@);
        lemma_terms(effects@);
    }
    if binds_tighter(found, inner) {
        effects.len() > 0 && (!inner_array || (values.len() > 0 && is_array(
            &values[values.len() - 1],
        ))) && inner.pattern.is_some()
    } else {
        found.pattern.is_some()
    }
}

impl OperatorCheck {
    /// Whether the check of operation `operation` on operands `values` can start
    /// without failing; see `start_defined`.
    pub fn can_start(operation: &Vec<u8>, values: &Vec<Effects>) -> (b: bool)
        ensures
            b == start_defined(operation@, terms(values@)),
    {
        proof {
            lemma_terms(values@);
        }
        let n = values.len();
        if n == 0 {
            return true;
        }
        match &values[n - 1] {
            Effects::CreateArray(items) => {
                proof {
                    lemma_terms(items@);
                }
                let m = items.len();
                if m == 0 {
                    return true;
                }
                match &items[m - 1] {
                    Effects::Operation(inner, _) => {
                        if ends_with_slot(operation) && starts_with_slot(inner) {
                            return candidates_can_be_formed(operation, inner);
                        }
                    },
                    _ => {},
                }
                m >= 2 && is_array(&items[m - 2])
            },
            Effects::Operation(inner, _) => {
                if ends_with_slot(operation) && starts_with_slot(inner) {
                    candidates_can_be_formed(operation, inner)
                } else {
                    true
                }
            },
            _ => true,
        }
    }

    /// Whether the check can go on without failing once its lookup has
    /// answered `answer`; see `resume_defined`.
    pub fn can_resume(&self, answer: &Option<OperationData>) -> (b: bool)
        ensures
            b == resume_defined(self@, operation_model(*answer)),
    {
        match &self.phase {
            Phase::Combined { combined, values, array, effects, .. } => match answer {
                Some(found) => {
                    proof {
                        lemma_terms(values@);
                        lemma_terms(effects@);
                    }
                    match &found.pattern {
                        Some(pattern) => {
                            if pattern.len() >= combined.len() {
                                let count = match array {
                                    Some(_) => 1,
                                    None => {
                                        if effects.len() > 0 {
                                            effects.len()
                                        } else {
                                            values.len()
                                        }
                                    },
                                };
                                proof {
                                    assert((count > 0) == (joined(
                                        terms(values@),
                                        optional_terms(*array),
                                        terms(effects@),
                                    ).len() > 0));
                                }
                                call_can_be_formed(found, count)
                            } else {
                                let cut = collapsed_length(pattern);
                                is_char_boundary(combined, cut)
                            }
                        },
                        None => false,
                    }
                },
                None => match array {
                    Some(items) => {
                        proof {
                            lemma_terms(items@);
                        }
                        items.len() > 0 && is_array(&items[items.len() - 1])
                    },
                    None => true,
                },
            },
            Phase::Remainder { found, values, effects, inner_array, .. } => match answer {
                Some(inner) => regroup_can_be_formed(found, values, inner, effects, *inner_array),
                None => true,
            },
            Phase::Inner { outer, values, effects, .. } => match answer {
                Some(inner) => regroup_can_be_formed(outer, values, inner, effects, false),
                None => true,
            },
            Phase::Final { values } => match answer {
                Some(op) => {
                    proof {
                        lemma_terms(values@);
                    }
                    call_can_be_formed(op, values.len())
                },
                None => true,
            },
            _ => true,
        }
    }
}

// ---------------------------------------------------------------------------
// What holds of every check.
// ---------------------------------------------------------------------------

/// The most lookups that a check in state `p` may still ask for.
pub open spec fn lookups_left(p: PhaseModel) -> nat {
    match p {
        PhaseModel::Combined { .. } => 2,
        PhaseModel::Outer { .. } => 1,
        _ => 0,
    }
}

/// A check starts by asking for a lookup, and may ask for two more at most.
pub proof fn lemma_start_asks_for_lookup(op: Seq<u8>, values: Seq<Term>)
    ensures
        started(op, values).1 is Lookup,
        lookups_left(started(op, values).0) <= 2,
{
}

/// Each answer either brings the check closer to its end, asking for another
/// lookup, or ends it: a check asks for three lookups at most, and once it
/// has answered it stays done and fails any further step.
pub proof fn lemma_resume_progress(p: PhaseModel, answer: Option<OperationModel>)
    ensures
        resumed(p, answer).1 is Lookup ==> lookups_left(resumed(p, answer).0) < lookups_left(p),
        !(resumed(p, answer).1 is Lookup) ==> resumed(p, answer).0 == PhaseModel::Done,
        p == PhaseModel::Done ==> resumed(p, answer) == (PhaseModel::Done, StepModel::Failed),
{
}

/// A lookup that fails ends the check with a failure, except the one for the
/// combination of two patterns, after which each pattern is looked up on its own.
pub proof fn lemma_failed_lookup_fails(p: PhaseModel)
    ensures
        !(p is Combined) ==> resumed(p, None).1 == StepModel::Failed,
        p is Combined ==> resumed(p, None).1 is Lookup,
{
}

/// The operands of a call, the one it is called on first.
pub open spec fn call_operand_list(c: CallModel) -> Seq<Term> {
    seq![c.calling] + c.arguments
}

proof fn lemma_finished_without_spread(op: OperationModel, values: Seq<Term>)
    requires
        op.pattern is Some,
        !has_spread(op.pattern.unwrap()),
        values.len() > 0,
    ensures
        call_operand_list(finished(op, values)) == values,
{
    assert(seq![values[0]] + values.drop_first() =~= values);
}

/// Where the combination of the two patterns names no operation and each
/// pattern names one on its own, the check ends in the call of the regrouped
/// operations, and that call keeps every operand, in the order written, where
/// the pattern that ends up outermost has no spread slot.
pub proof fn lemma_check_keeps_operands_when_regrouped(
    op: Seq<u8>,
    values: Seq<Term>,
    outer: OperationModel,
    inner: OperationModel,
)
    requires
        values.len() > 0,
        combines(op, values.last()),
        regroup_defined(outer, values.drop_last(), inner, operation_parts(values.last()).1, false),
        !has_spread(
            (if outer_binds_tighter(outer, inner) {
                inner
            } else {
                outer
            }).pattern.unwrap(),
        ),
    ensures
        ({
            let s0 = started(op, values);
            let s1 = resumed(s0.0, None);
            let s2 = resumed(s1.0, Some(outer));
            let s3 = resumed(s2.0, Some(inner));
            &&& s0.1 == StepModel::Lookup(candidates(op, operation_parts(values.last()).0))
            &&& s1.1 == StepModel::Lookup(seq![op])
            &&& s2.1 == StepModel::Lookup(seq![operation_parts(values.last()).0])
            &&& s3.1 matches StepModel::Call(c) && leaves_of(call_operand_list(c)) == leaves_of(
                values,
            )
        }),
{
    let (inner_op, effects) = operation_parts(values.last());
    let rest = values.drop_last();
    lemma_assign_keeps_operand_order(op, outer, rest, inner_op, inner, effects, false);
    let (root, operands) = assigned(op, outer, rest, inner_op, inner, effects, false);
    assert(operands.len() > 0);
    lemma_finished_without_spread(root.unwrap(), operands);
    assert(values.last() == Term::Operation(inner_op, effects));
    assert(leaves(values.last()) == leaves_of(effects));
    assert(leaves_of(values) == leaves_of(rest) + leaves_of(effects));
}

/// Where the combination of the two patterns names an operation declared with
/// a pattern as long as the combination at least, the call takes the outer
/// operands followed by the inner ones, in the order written, where that
/// pattern has no spread slot, no array literal was involved and there is an
/// operand at all.
pub proof fn lemma_check_keeps_operands_when_combined(
    op: Seq<u8>,
    values: Seq<Term>,
    found: OperationModel,
)
    requires
        values.len() > 0,
        combines(op, values.last()),
        found.pattern is Some,
        !has_spread(found.pattern.unwrap()),
        found.pattern.unwrap().len() >= combination(op, operation_parts(values.last()).0).len(),
        values.len() > 1 || operation_parts(values.last()).1.len() > 0,
    ensures
        ({
            let s0 = started(op, values);
            let s1 = resumed(s0.0, Some(found));
            &&& s1.1 matches StepModel::Call(c) && c.name == found.name && leaves_of(
                call_operand_list(c),
            ) == leaves_of(values)
        }),
{
    let (inner_op, effects) = operation_parts(values.last());
    let rest = values.drop_last();
    assert(values.last() == Term::Operation(inner_op, effects));
    let operands = joined(rest, None, effects);
    lemma_leaves_of_concat(rest, effects);
    lemma_finished_without_spread(found, operands);
    assert(leaves(values.last()) == leaves_of(effects));
    assert(leaves_of(values) == leaves_of(rest) + leaves_of(effects));
}

/// The pattern `p` holds a spread slot `{+}` somewhere.
pub open spec fn holds_spread_slot(p: Seq<u8>) -> bool {
    exists|i: int|
        #![trigger p[i]]
        0 <= i && i + 3 <= p.len() && p[i] == 123u8 && p[i + 1] == 43u8 && p[i + 2] == 125u8
}

proof fn lemma_spread_slot_same(p: Seq<u8>)
    ensures
        has_spread(p) == holds_spread_slot(p),
{
    if has_spread(p) {
        let i = choose|i: int| spread_at(p, i);
        assert(p[i] == 123u8);
    }
    if holds_spread_slot(p) {
        let i = choose|i: int|
            #![trigger p[i]]
            0 <= i && i + 3 <= p.len() && p[i] == 123u8 && p[i + 1] == 43u8 && p[i + 2] == 125u8;
        assert(spread_at(p, i));
    }
}

/// The operands of the call an operation amounts to, first the one it is
/// called on: where the operation's pattern holds a spread slot `{+}` and the
/// first operand is not an array literal, that operand is wrapped in an array
/// literal of one item and moves to the end, however many operands there are;
/// otherwise they are the operands as given. The call is named after the
/// operation.
pub proof fn lemma_call_operands(op: OperationModel, values: Seq<Term>)
    requires
        op.pattern is Some,
        values.len() > 0,
    ensures
        finished(op, values).name == op.name,
        holds_spread_slot(op.pattern.unwrap()) && !(values[0] is CreateArray) ==> call_operand_list(
            finished(op, values),
        ) == values.drop_first().push(Term::CreateArray(seq![values[0]])),
        !(holds_spread_slot(op.pattern.unwrap()) && !(values[0] is CreateArray))
            ==> call_operand_list(finished(op, values)) == values,
{
    let operands = call_operands(op.pattern.unwrap(), values);
    lemma_spread_slot_same(op.pattern.unwrap());
    assert(operands.len() > 0);
    assert(seq![operands[0]] + operands.drop_first() =~= operands);
}

/// An operation with no operands is called on nothing, with no arguments.
pub proof fn lemma_call_without_operands(op: OperationModel)
    requires
        op.pattern is Some,
        !holds_spread_slot(op.pattern.unwrap()),
    ensures
        finished(op, Seq::empty()) == (CallModel {
            calling: Term::Nop,
            name: op.name,
            arguments: Seq::empty(),
        }),
{
    lemma_spread_slot_same(op.pattern.unwrap());
}

/// Where the operation's pattern ends with a slot `{}` and its last operand
/// (not in an array literal) is an operation whose pattern starts with one,
/// the check starts by looking up the pattern that the two form together: the
/// outer pattern without its trailing slot, followed by the inner pattern.
/// Where the outer pattern starts with a slot and the inner one ends with one,
/// each prefix of that pattern that ends inside the inner pattern, after its
/// leading slot and before its last two bytes, is asked for, shortest first;
/// otherwise the whole pattern is. The outer operands and the inner operation
/// are kept for what follows.
pub proof fn lemma_start_looks_up_combination(
    op: Seq<u8>,
    values: Seq<Term>,
    inner: Seq<u8>,
    effects: Seq<Term>,
)
    requires
        values.len() > 0,
        values.last() == Term::Operation(inner, effects),
        op.len() >= 2 && op[op.len() - 2] == 123u8 && op[op.len() - 1] == 125u8,
        inner.len() >= 2 && inner[0] == 123u8 && inner[1] == 125u8,
    ensures
        ({
            let both = op.take(op.len() - 2) + inner;
            let s = started(op, values);
            &&& s.0 == PhaseModel::Combined {
                operation: op,
                inner_operation: inner,
                combined: both,
                values: values.drop_last(),
                array: None,
                effects,
            }
            &&& (op[0] == 123u8 && op[1] == 125u8 && inner[inner.len() - 2] == 123u8
                && inner[inner.len() - 1] == 125u8) ==> s.1 == StepModel::Lookup(
                Seq::new((inner.len() - 4) as nat, |i: int| both.take(op.len() + i)),
            )
            &&& !(op[0] == 123u8 && op[1] == 125u8 && inner[inner.len() - 2] == 123u8
                && inner[inner.len() - 1] == 125u8) ==> s.1 == StepModel::Lookup(seq![both])
        }),
{
}

/// Where the last operand is neither an array literal nor an operation that
/// combines with the operation (its pattern ending with a slot `{}`, the
/// operand's starting with one), the check keeps every operand as given and
/// looks up the operation's own pattern.
pub proof fn lemma_start_keeps_operands(op: Seq<u8>, values: Seq<Term>)
    requires
        values.len() > 0 ==> !(values.last() is CreateArray),
        values.len() > 0 ==> !(values.last() matches Term::Operation(inner, _) && op.len() >= 2
            && op[op.len() - 2] == 123u8 && op[op.len() - 1] == 125u8 && inner.len() >= 2
            && inner[0] == 123u8 && inner[1] == 125u8),
    ensures
        started(op, values) == (PhaseModel::Final { values }, StepModel::Lookup(seq![op])),
{
}

/// A check whose last operand does not combine ends, once the operation is
/// found with a pattern that holds no spread slot, in the call of that
/// operation on the first operand with the others as arguments, in order.
pub proof fn lemma_plain_check_calls_on_operands(op: Seq<u8>, values: Seq<Term>, found: OperationModel)
    requires
        values.len() > 0,
        !(values.last() is CreateArray),
        !(values.last() matches Term::Operation(inner, _) && op.len() >= 2 && op[op.len() - 2]
            == 123u8 && op[op.len() - 1] == 125u8 && inner.len() >= 2 && inner[0] == 123u8
            && inner[1] == 125u8),
        found.pattern is Some,
        !holds_spread_slot(found.pattern.unwrap()),
    ensures
        resumed(started(op, values).0, Some(found)).1 == StepModel::Call(
            CallModel { calling: values[0], name: found.name, arguments: values.drop_first() },
        ),
{
    lemma_start_keeps_operands(op, values);
    lemma_spread_slot_same(found.pattern.unwrap());
}

/// Where the combination's front names an operation whose pattern is shorter
/// than the combination and holds no spread slot, the rest of the combination
/// is looked up next, behind a slot `{}` for the value of that front
/// operation; the outer operands (with the array literal put back, where
/// the inner operation sat in one) wait for it.
pub proof fn lemma_remainder_after_front(p: PhaseModel, found: OperationModel)
    requires
        p matches PhaseModel::Combined { combined, .. } && found.pattern matches Some(f) && f.len()
            < combined.len(),
        !holds_spread_slot(found.pattern.unwrap()),
    ensures
        p matches PhaseModel::Combined { combined, values, array, effects, .. } && resumed(
            p,
            Some(found),
        ) == (
            PhaseModel::Remainder {
                found,
                operation: found.pattern.unwrap(),
                inner_operation: seq![123u8, 125u8] + combined.skip(found.pattern.unwrap().len() as int),
                values: match array {
                    Some(a) => values.push(Term::CreateArray(a)),
                    None => values,
                },
                effects,
                inner_array: array is Some,
            },
            StepModel::Lookup(
                seq![seq![123u8, 125u8] + combined.skip(found.pattern.unwrap().len() as int)],
            ),
        ),
{
    let f = found.pattern.unwrap();
    lemma_spread_slot_same(f);
    lemma_no_spread_counts_none(f, f.len() as int);
}

proof fn lemma_no_spread_counts_none(f: Seq<u8>, n: int)
    requires
        !has_spread(f),
    ensures
        spread_count(f, n) == 0,
    decreases n,
{
    if n > 0 {
        lemma_no_spread_counts_none(f, n - 1);
    }
}

} // verus!
