use vstd::prelude::*;

use crate::effects::{
    lemma_terms, operation_model, parse_left_of, priority_of, term, terms, Effects, OperationData,
    OperationModel, Term,
};

verus! {

// ---------------------------------------------------------------------------
// Precedence: which of two operations takes the operand between them.
// ---------------------------------------------------------------------------

/// The outer operation takes the operand that stands between it and the inner
/// one: the inner operation has the lower priority, or the same priority while
/// the outer one does not group to the left.
pub open spec fn outer_binds_tighter(found: OperationModel, inner: OperationModel) -> bool {
    priority_of(inner) < priority_of(found) || (!parse_left_of(found) && priority_of(inner)
        == priority_of(found))
}

/// The items of an array literal, and nothing for any other value.
pub open spec fn array_items(t: Term) -> Seq<Term> {
    match t {
        Term::CreateArray(items) => items,
        _ => Seq::empty(),
    }
}

/// `assign_with_priority` can run without failing: where the outer operation
/// binds tighter, the inner one has an operand to give it, and where the outer
/// operands end in an array that takes it, that array is there.
pub open spec fn assign_defined(
    found: OperationModel,
    inner_data: OperationModel,
    values: Seq<Term>,
    inner_effects: Seq<Term>,
    inner_array: bool,
) -> bool {
    outer_binds_tighter(found, inner_data) ==> {
        &&& inner_effects.len() > 0
        &&& inner_array ==> values.len() > 0 && values.last() is CreateArray
    }
}

/// The outer operation `operation` (declared as `found`) with operands
/// `values`, followed by the inner operation `inner_operator` (declared as
/// `inner_data`) with operands `inner_effects`, regrouped by priority. The
/// result is the operation that ends up outermost and its operands.
/// Where the outer operation binds tighter, it takes the inner one's first
/// operand (into its trailing array where `inner_array`), and becomes the first
/// operand of the inner one; otherwise the inner operation, whole, becomes the
/// last operand of the outer one.
pub open spec fn assigned(
    operation: Seq<u8>,
    found: OperationModel,
    values: Seq<Term>,
    inner_operator: Seq<u8>,
    inner_data: OperationModel,
    inner_effects: Seq<Term>,
    inner_array: bool,
) -> (Option<OperationModel>, Seq<Term>) {
    if outer_binds_tighter(found, inner_data) {
        let first = inner_effects[0];
        let operands = if inner_array {
            values.drop_last().push(Term::CreateArray(array_items(values.last()).push(first)))
        } else {
            values.push(first)
        };
        (Some(inner_data), seq![Term::Operation(operation, operands)] + inner_effects.drop_first())
    } else {
        (Some(found), values.push(Term::Operation(inner_operator, inner_effects)))
    }
}

/// Regroups two operations that follow each other by their priorities; see
/// `assigned`.
pub fn assign_with_priority(
    operation: Vec<u8>,
    found: &OperationData,
    values: Vec<Effects>,
    inner_operator: Vec<u8>,
    inner_data: &OperationData,
    inner_effects: Vec<Effects>,
    inner_array: bool,
) -> (r: (Option<OperationData>, Vec<Effects>))
    requires
        assign_defined(found@, inner_data@, terms(values@), terms(inner_effects@), inner_array),
    ensures
        (operation_model(r.0), terms(r.1@)) == assigned(
            operation@,
            found@,
            terms(values@),
            inner_operator@,
            inner_data@,
            terms(inner_effects@),
            inner_array,
        ),
{
    let ghost vs = terms(values@);
    let ghost ies = terms(inner_effects@);
    proof {
        lemma_terms(values@);
        lemma_terms(inner_effects@);
    }
    let op_priority = found.priority_or_default();
    let op_parse_left = found.parse_left_or_default();
    let lhs_priority = inner_data.priority_or_default();
    let mut values = values;
    let mut inner_effects = inner_effects;
    if lhs_priority < op_priority || (!op_parse_left && lhs_priority == op_priority) {
        let first = inner_effects.remove(0);
        let ghost rest = inner_effects@;
        proof {
            lemma_terms(rest);
            assert(term(first) == ies[0]);
            assert(terms(rest) =~= ies.drop_first());
        }
        if inner_array {
            let ghost before = values@;
            let last = values.pop().unwrap();
            proof {
                lemma_terms(values@);
                assert(terms(values@) =~= vs.drop_last());
                assert(term(last) == vs.last());
            }
            match last {
                Effects::CreateArray(items) => {
                    let mut items = items;
                    let ghost old_items = items@;
                    items.push(first);
                    proof {
                        lemma_terms(old_items);
                        lemma_terms(items@);
                        assert(terms(items@) =~= terms(old_items).push(term(first)));
                    }
                    values.push(Effects::CreateArray(items));
                },
                _ => {
                    proof {
                        assert(false);
                    }
                },
            }
        } else {
            values.push(first);
        }
        let ghost operands = values@;
        proof {
            lemma_terms(operands);
            if inner_array {
                assert(terms(operands) =~= vs.drop_last().push(
                    Term::CreateArray(array_items(vs.last()).push(ies[0])),
                ));
            } else {
                assert(terms(operands) =~= vs.push(ies[0]));
            }
        }
        inner_effects.insert(0, Effects::Operation(operation, values));
        proof {
            lemma_terms(inner_effects@);
            assert(terms(inner_effects@) =~= seq![
                Term::Operation(operation@, terms(operands)),
            ] + ies.drop_first());
        }
        (Some(inner_data.duplicate()), inner_effects)
    } else {
        let ghost ie = inner_effects@;
        values.push(Effects::Operation(inner_operator, inner_effects));
        proof {
            lemma_terms(values@);
            assert(terms(values@) =~= vs.push(Term::Operation(inner_operator@, terms(ie))));
        }
        (Some(found.duplicate()), values)
    }
}

/// Whether the outer operation takes the operand between it and the inner one.
pub fn binds_tighter(found: &OperationData, inner_data: &OperationData) -> (b: bool)
    ensures
        b == outer_binds_tighter(found@, inner_data@),
{
    let op_priority = found.priority_or_default();
    let op_parse_left = found.parse_left_or_default();
    let lhs_priority = inner_data.priority_or_default();
    lhs_priority < op_priority || (!op_parse_left && lhs_priority == op_priority)
}

/// The operands that a value is made of, read left to right: an operation or
/// an array literal is made of its operands or items, any other value of itself.
pub open spec fn leaves(t: Term) -> Seq<Term>
    decreases t,
{
    match t {
        Term::Operation(_, args) => leaves_of(args),
        Term::CreateArray(items) => leaves_of(items),
        _ => seq![t],
    }
}

/// The operands that a sequence of values is made of, read left to right.
pub open spec fn leaves_of(s: Seq<Term>) -> Seq<Term>
    decreases s,
{
    if s.len() == 0 {
        Seq::empty()
    } else {
        leaves_of(s.drop_last()) + leaves(s.last())
    }
}

pub proof fn lemma_leaves_of_concat(a: Seq<Term>, b: Seq<Term>)
    ensures
        leaves_of(a + b) == leaves_of(a) + leaves_of(b),
    decreases b.len(),
{
    if b.len() == 0 {
        assert(a + b =~= a);
        assert(leaves_of(a) + leaves_of(b) =~= leaves_of(a));
    } else {
        lemma_leaves_of_concat(a, b.drop_last());
        assert((a + b).drop_last() =~= a + b.drop_last());
        assert((a + b).last() == b.last());
        assert(leaves_of(a) + leaves_of(b) =~= leaves_of(a) + leaves_of(b.drop_last()) + leaves(
            b.last(),
        ));
    }
}

proof fn lemma_leaves_of_single(t: Term)
    ensures
        leaves_of(seq![t]) == leaves(t),
{
    assert(seq![t].drop_last() =~= Seq::<Term>::empty());
    assert(leaves_of(Seq::<Term>::empty()) + leaves(t) =~= leaves(t));
}

/// Regrouping two operations by priority keeps every operand, in the order in
/// which they were written: the operands of the result, read left to right,
/// are the outer operation's operands followed by the inner one's.
pub proof fn lemma_assign_keeps_operand_order(
    operation: Seq<u8>,
    found: OperationModel,
    values: Seq<Term>,
    inner_operator: Seq<u8>,
    inner_data: OperationModel,
    inner_effects: Seq<Term>,
    inner_array: bool,
)
    requires
        assign_defined(found, inner_data, values, inner_effects, inner_array),
    ensures
        leaves_of(
            assigned(
                operation,
                found,
                values,
                inner_operator,
                inner_data,
                inner_effects,
                inner_array,
            ).1,
        ) == leaves_of(values) + leaves_of(inner_effects),
{
    if outer_binds_tighter(found, inner_data) {
        let first = inner_effects[0];
        let rest = inner_effects.drop_first();
        assert(inner_effects =~= seq![first] + rest);
        lemma_leaves_of_concat(seq![first], rest);
        lemma_leaves_of_single(first);
        let operands = if inner_array {
            values.drop_last().push(Term::CreateArray(array_items(values.last()).push(first)))
        } else {
            values.push(first)
        };
        if inner_array {
            let items = array_items(values.last());
            assert(values.drop_last().push(values.last()) =~= values);
            assert(leaves(values.last()) == leaves_of(items));
            assert(items.push(first).drop_last() =~= items);
            assert(items.push(first).last() == first);
            assert(leaves_of(items.push(first)) == leaves_of(items) + leaves(first));
            assert(operands.drop_last() =~= values.drop_last());
            assert(operands.last() == Term::CreateArray(items.push(first)));
            assert(leaves(operands.last()) == leaves_of(items.push(first)));
            assert(leaves_of(values) == leaves_of(values.drop_last()) + leaves(values.last()));
            assert(leaves_of(operands) == leaves_of(values.drop_last()) + (leaves_of(items) + leaves(
                first,
            )));
            assert(leaves_of(operands) =~= leaves_of(values) + leaves(first));
        } else {
            assert(values.push(first).drop_last() =~= values);
            assert(leaves_of(operands) == leaves_of(values) + leaves(first));
        }
        let result = seq![Term::Operation(operation, operands)] + rest;
        lemma_leaves_of_concat(seq![Term::Operation(operation, operands)], rest);
        lemma_leaves_of_single(Term::Operation(operation, operands));
        assert(leaves_of(result) =~= leaves_of(values) + leaves_of(inner_effects));
    } else {
        let result = values.push(Term::Operation(inner_operator, inner_effects));
        assert(result.drop_last() =~= values);
        assert(result.last() == Term::Operation(inner_operator, inner_effects));
        assert(leaves(result.last()) == leaves_of(inner_effects));
        assert(leaves_of(result) == leaves_of(values) + leaves_of(inner_effects));
    }
}

/// Where the inner operation has the lower priority (a missing priority
/// counting as 0), the outer operation takes the operand between them,
/// whatever its left grouping: the inner operation ends up outermost, and its
/// first operand is the outer operation applied to the outer operands and
/// the inner operation's first operand (which goes into the trailing array
/// literal of the outer operands where `inner_array`).
pub proof fn lemma_lower_inner_priority_takes_operand(
    operation: Seq<u8>,
    found: OperationModel,
    values: Seq<Term>,
    inner_operator: Seq<u8>,
    inner_data: OperationModel,
    inner_effects: Seq<Term>,
    inner_array: bool,
)
    requires
        (match inner_data.priority {
            Some(p) => p,
            None => 0,
        }) < (match found.priority {
            Some(p) => p,
            None => 0,
        }),
        inner_effects.len() > 0,
        inner_array ==> values.len() > 0 && values.last() is CreateArray,
    ensures
        ({
            let r = assigned(
                operation,
                found,
                values,
                inner_operator,
                inner_data,
                inner_effects,
                inner_array,
            );
            &&& r.0 == Some(inner_data)
            &&& r.1.len() == inner_effects.len()
            &&& !inner_array ==> r.1[0] == Term::Operation(operation, values.push(inner_effects[0]))
            &&& inner_array ==> (values.last() matches Term::CreateArray(items) && r.1[0]
                == Term::Operation(
                operation,
                values.drop_last().push(Term::CreateArray(items.push(inner_effects[0]))),
            ))
            &&& forall|i: int| 1 <= i < r.1.len() ==> r.1[i] == inner_effects[i]
        }),
{
}

/// Where the inner operation has the higher priority, it stays whole, as the
/// last operand of the outer operation, which ends up outermost.
pub proof fn lemma_higher_inner_priority_stays_whole(
    operation: Seq<u8>,
    found: OperationModel,
    values: Seq<Term>,
    inner_operator: Seq<u8>,
    inner_data: OperationModel,
    inner_effects: Seq<Term>,
    inner_array: bool,
)
    requires
        (match inner_data.priority {
            Some(p) => p,
            None => 0,
        }) > (match found.priority {
            Some(p) => p,
            None => 0,
        }),
    ensures
        assigned(operation, found, values, inner_operator, inner_data, inner_effects, inner_array)
            == (Some(found), values.push(Term::Operation(inner_operator, inner_effects))),
{
}

/// Where the two priorities are equal, the outer operation's left grouping
/// decides (a missing `parse_left` counting as `false`): an outer operation
/// that groups to the left leaves the inner one whole as its last operand;
/// one that does not takes the operand between them, as where the inner
/// operation has the lower priority.
pub proof fn lemma_equal_priority_follows_left_grouping(
    operation: Seq<u8>,
    found: OperationModel,
    values: Seq<Term>,
    inner_operator: Seq<u8>,
    inner_data: OperationModel,
    inner_effects: Seq<Term>,
    inner_array: bool,
)
    requires
        (match inner_data.priority {
            Some(p) => p,
            None => 0,
        }) == (match found.priority {
            Some(p) => p,
            None => 0,
        }),
        found.parse_left != Some(true) ==> inner_effects.len() > 0,
    ensures
        found.parse_left == Some(true) ==> assigned(
            operation,
            found,
            values,
            inner_operator,
            inner_data,
            inner_effects,
            inner_array,
        ) == (Some(found), values.push(Term::Operation(inner_operator, inner_effects))),
        found.parse_left != Some(true) && !inner_array ==> assigned(
            operation,
            found,
            values,
            inner_operator,
            inner_data,
            inner_effects,
            inner_array,
        ) == (
            Some(inner_data),
            seq![Term::Operation(operation, values.push(inner_effects[0]))]
                + inner_effects.drop_first(),
        ),
{
}

} // verus!
