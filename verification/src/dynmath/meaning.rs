//! What a program means, and that a run comes to it.
//!
//! The meaning of a program does not speak of a cursor or of an order: the
//! value of an operation is the operation on the values of its operands. A
//! run walks the operations in one certain order, and hands the arithmetic
//! out; that it comes to the value that the program means is proved here.

use vstd::prelude::*;
use crate::dynmath::eval::{
    evaluand_plan, evaluand_result, field_of, first_missing, needed, operands_of, plan_of,
    result_of, EvaluatorView, PlanView, StepView,
};
use crate::dynmath::{AnswerView, EvaluationErrorView, RequestView, ValueView};
use crate::tokenizer::token::TokenView;

verus! {

/// The number that an arithmetic unit makes of a literal, if it answers with
/// one number.
pub open spec fn converted(unit: spec_fn(RequestView) -> AnswerView, text: Seq<char>) -> Option<
    ValueView,
> {
    match unit(RequestView::Literal(text)) {
        AnswerView::Numbers(r) => if r.len() == 1 {
            Some(ValueView::Number(r[0]))
        } else {
            None
        },
        _ => None,
    }
}

/// The text of the first literal at or behind `from` that awaits conversion
/// under the id.
pub open spec fn pending_literal(literals: Seq<(u16, Seq<char>)>, id: u16, from: int) -> Option<
    Seq<char>,
>
    decreases literals.len() - from,
{
    if 0 <= from < literals.len() {
        if literals[from].0 == id {
            Some(literals[from].1)
        } else {
            pending_literal(literals, id, from + 1)
        }
    } else {
        None
    }
}

/// The value under an id that is no operation: the number of the literal that
/// awaits conversion there, or else the value at hand.
pub open spec fn leaf_value(
    s: EvaluatorView,
    unit: spec_fn(RequestView) -> AnswerView,
    id: u16,
) -> Option<ValueView> {
    match pending_literal(s.literals, id, 0) {
        Some(text) => converted(unit, text),
        None => if s.values.contains_key(id) {
            Some(s.values[id])
        } else {
            None
        },
    }
}

/// The value of the operation `op` on operands that have the values `o`, with
/// the arithmetic of `unit`; none if the operation is an error. `field` is the
/// name behind the dot of a field access.
pub open spec fn token_value(
    op: TokenView,
    o: Seq<ValueView>,
    field: Seq<char>,
    unit: spec_fn(RequestView) -> AnswerView,
) -> Option<ValueView> {
    match plan_of(op, o, field) {
        Ok(PlanView::Ready(v)) => Some(v),
        Ok(PlanView::Ask(q)) => match result_of(op, o, field, unit(q)) {
            Ok(v) => Some(v),
            Err(_) => None,
        },
        Err(_) => None,
    }
}

/// The value of the operation under an id on operands that have the values
/// `o`.
pub open spec fn operation_value(
    s: EvaluatorView,
    unit: spec_fn(RequestView) -> AnswerView,
    id: u16,
    o: Seq<ValueView>,
) -> Option<ValueView> {
    token_value(s.ops[id].op.token, o, field_of(s.ops[id], s.aliases), unit)
}

/// The values of a sequence, where each has one.
pub open spec fn all_of(found: Seq<Option<ValueView>>) -> Seq<ValueView> {
    Seq::new(found.len(), |k: int| found[k]->Some_0)
}

/// The values that a program means for the operands of the operation under
/// an id: an operand with a higher id has the value that the program means
/// there, and any other operand is a leaf.
pub open spec fn operand_values(
    s: EvaluatorView,
    unit: spec_fn(RequestView) -> AnswerView,
    id: u16,
) -> Seq<Option<ValueView>>
    decreases 0x1_0000 - id, 0nat,
{
    let args = needed(s.ops[id]);
    Seq::new(
        args.len(),
        |k: int|
            if 0 <= k < args.len() && args[k] > id {
                node_value(s, unit, args[k])
            } else {
                leaf_value(s, unit, args[k])
            },
    )
}

/// The value that a program means under an id, with the arithmetic of `unit`.
/// Under an operation it is the value of the operation on the values of its
/// operands. Elsewhere it is the value of the leaf. There is none where an
/// operand has none, or the operation is an error.
pub open spec fn node_value(
    s: EvaluatorView,
    unit: spec_fn(RequestView) -> AnswerView,
    id: u16,
) -> Option<ValueView>
    decreases 0x1_0000 - id, 1nat,
{
    if s.ops.contains_key(id) {
        let found = operand_values(s, unit, id);
        if forall|k: int| 0 <= k < found.len() ==> (#[trigger] found[k]) is Some {
            operation_value(s, unit, id, all_of(found))
        } else {
            None
        }
    } else {
        leaf_value(s, unit, id)
    }
}

/// The values at hand once every operation from the one below the cursor
/// down has its value, each from the values at hand when it is reached, with
/// the arithmetic of `unit`. There are none if an operation is an error.
pub open spec fn settled(s: EvaluatorView, unit: spec_fn(RequestView) -> AnswerView) -> Option<
    Map<u16, ValueView>,
>
    decreases s.cursor,
{
    if s.cursor == 0 {
        Some(s.values)
    } else {
        let id = (s.cursor - 1) as u16;
        let below = (s.cursor - 1) as nat;
        if !s.ops.contains_key(id) {
            settled(EvaluatorView { cursor: below, ..s }, unit)
        } else {
            match first_missing(s.values, needed(s.ops[id]), 0) {
                Some(_) => None,
                None => match operation_value(
                    s,
                    unit,
                    id,
                    operands_of(s.values, needed(s.ops[id])),
                ) {
                    Some(v) => settled(
                        EvaluatorView { values: s.values.insert(id, v), cursor: below, ..s },
                        unit,
                    ),
                    None => None,
                },
            }
        }
    }
}

/// Settling leaves every value as it is that is no operation, or an operation
/// at or above the cursor.
proof fn lemma_settled_keeps(s: EvaluatorView, unit: spec_fn(RequestView) -> AnswerView, id: u16)
    requires
        settled(s, unit) is Some,
        !s.ops.contains_key(id) || id >= s.cursor,
    ensures
        settled(s, unit)->Some_0.contains_key(id) <==> s.values.contains_key(id),
        s.values.contains_key(id) ==> settled(s, unit)->Some_0[id] == s.values[id],
    decreases s.cursor,
{
    if s.cursor > 0 {
        let at = (s.cursor - 1) as u16;
        let below = (s.cursor - 1) as nat;
        if !s.ops.contains_key(at) {
            lemma_settled_keeps(EvaluatorView { cursor: below, ..s }, unit, id);
        } else {
            let v = operation_value(s, unit, at, operands_of(s.values, needed(s.ops[at])))->Some_0;
            lemma_settled_keeps(
                EvaluatorView { values: s.values.insert(at, v), cursor: below, ..s },
                unit,
                id,
            );
        }
    }
}

/// The operands of an operation have, once all is settled, the values that
/// they had when the operation was reached.
proof fn lemma_operands_stay(
    s: EvaluatorView,
    t: EvaluatorView,
    unit: spec_fn(RequestView) -> AnswerView,
    id: u16,
)
    requires
        s.ordered(),
        s.ops.contains_key(id),
        s.cursor == id + 1,
        t == (EvaluatorView { values: t.values, cursor: id as nat, ..s }),
        forall|c: u16|
            c != id ==> (#[trigger] t.values.contains_key(c) <==> s.values.contains_key(c)),
        forall|c: u16|
            c != id && #[trigger] s.values.contains_key(c) ==> t.values[c] == s.values[c],
        settled(t, unit) is Some,
    ensures
        first_missing(settled(t, unit)->Some_0, needed(s.ops[id]), 0) == first_missing(
            s.values,
            needed(s.ops[id]),
            0,
        ),
        first_missing(s.values, needed(s.ops[id]), 0) is None ==> operands_of(
            settled(t, unit)->Some_0,
            needed(s.ops[id]),
        ) == operands_of(s.values, needed(s.ops[id])),
{
    let f = settled(t, unit)->Some_0;
    let e = s.ops[id];
    let args = needed(e);
    assert forall|k: int| 0 <= k < args.len() implies (f.contains_key(#[trigger] args[k])
        <==> s.values.contains_key(args[k])) && (s.values.contains_key(args[k]) ==> f[args[k]]
        == s.values[args[k]]) by {
        let c = e.args[k];
        assert(args[k] == c);
        assert(c > id || s.is_input_slot(c));
        if s.is_input_slot(c) {
            let j = choose|j: int| 0 <= j < s.aliases.len() && (#[trigger] s.aliases[j]).1 == c;
            assert(!s.ops.contains_key(s.aliases[j].1));
        }
        assert(c != id);
        lemma_settled_keeps(t, unit, c);
    }
    crate::dynmath::order::lemma_first_missing_agrees(s.values, f, args, 0);
    if first_missing(s.values, args, 0) is None {
        assert forall|k: int| 0 <= k < args.len() implies f[#[trigger] args[k]]
            == s.values[args[k]] by {
            assert(s.values.contains_key(args[k]));
        }
        assert(operands_of(f, args) =~= operands_of(s.values, args));
    }
}

/// Once all is settled, every operation below the cursor has the value of
/// the operation on the values that its operands then have.
proof fn lemma_settled_holds(s: EvaluatorView, unit: spec_fn(RequestView) -> AnswerView, p: u16)
    requires
        s.ordered(),
        s.cursor <= s.nodes,
        settled(s, unit) is Some,
        s.ops.contains_key(p),
        p < s.cursor,
    ensures
        first_missing(settled(s, unit)->Some_0, needed(s.ops[p]), 0) is None,
        settled(s, unit)->Some_0.contains_key(p),
        operation_value(
            s,
            unit,
            p,
            operands_of(settled(s, unit)->Some_0, needed(s.ops[p])),
        ) == Some(settled(s, unit)->Some_0[p]),
    decreases s.cursor,
{
    let at = (s.cursor - 1) as u16;
    let below = (s.cursor - 1) as nat;
    if !s.ops.contains_key(at) {
        let s1 = EvaluatorView { cursor: below, ..s };
        crate::dynmath::order::lemma_evaluation_keeps_order(s, s1);
        lemma_settled_holds(s1, unit, p);
        let o = operands_of(settled(s, unit)->Some_0, needed(s.ops[p]));
        assert(operation_value(s1, unit, p, o) == operation_value(s, unit, p, o));
    } else {
        let o = operands_of(s.values, needed(s.ops[at]));
        let v = operation_value(s, unit, at, o)->Some_0;
        let s1 = EvaluatorView { values: s.values.insert(at, v), cursor: below, ..s };
        crate::dynmath::order::lemma_evaluation_keeps_order(s, s1);
        if p == at {
            lemma_operands_stay(s, s1, unit, at);
            lemma_settled_keeps(s1, unit, at);
        } else {
            lemma_settled_holds(s1, unit, p);
            let o = operands_of(settled(s, unit)->Some_0, needed(s.ops[p]));
            assert(operation_value(s1, unit, p, o) == operation_value(s, unit, p, o));
        }
    }
}

/// Once the operations of an ordered program are settled, starting above them
/// all and with no literal awaiting conversion, every operation has the value
/// that the program means there.
proof fn lemma_settled_means(s: EvaluatorView, unit: spec_fn(RequestView) -> AnswerView, id: u16)
    requires
        s.ordered(),
        s.literals.len() == 0,
        s.cursor == s.nodes,
        settled(s, unit) is Some,
    ensures
        s.ops.contains_key(id) ==> node_value(s, unit, id) == Some(settled(s, unit)->Some_0[id]),
        !s.ops.contains_key(id) ==> node_value(s, unit, id) == leaf_value(s, unit, id),
        forall|c: u16|
            leaf_value(s, unit, c) == (if s.values.contains_key(c) {
                Some(s.values[c])
            } else {
                None::<ValueView>
            }),
    decreases 0x1_0000 - id,
{
    let f = settled(s, unit)->Some_0;
    if s.ops.contains_key(id) {
        let e = s.ops[id];
        let args = needed(e);
        lemma_settled_holds(s, unit, id);
        crate::dynmath::order::lemma_first_missing_agrees(f, f, args, 0);
        let found = operand_values(s, unit, id);
        assert(found.len() == args.len());
        assert forall|k: int| 0 <= k < args.len() implies #[trigger] found[k] == Some(
            f[args[k]],
        ) by {
            let c = args[k];
            assert(c == e.args[k]);
            assert(f.contains_key(c));
            if c > id {
                lemma_settled_means(s, unit, c);
                if !s.ops.contains_key(c) {
                    lemma_settled_keeps(s, unit, c);
                }
            } else {
                assert(c > id || s.is_input_slot(c));
                let j = choose|j: int| 0 <= j < s.aliases.len() && (#[trigger] s.aliases[j]).1 == c;
                assert(!s.ops.contains_key(s.aliases[j].1));
                lemma_settled_keeps(s, unit, c);
            }
        }
        assert(all_of(found) =~= operands_of(f, args));
    }
}

/// Where a run ends that stands at `step` in the state `s`, when every
/// request is answered by `unit`.
///
/// The comparison of what remains only keeps the definition well founded: by
/// [`crate::dynmath::order::lemma_accept_progress`] it never fails.
pub open spec fn driven(
    s: EvaluatorView,
    step: Result<StepView, EvaluationErrorView>,
    unit: spec_fn(RequestView) -> AnswerView,
) -> Result<ValueView, EvaluationErrorView>
    decreases
            s.remaining() + (if step matches Ok(StepView::Ask(_)) {
                1nat
            } else {
                0nat
            }),
{
    match step {
        Err(e) => Err(e),
        Ok(StepView::Done(v)) => Ok(v),
        Ok(StepView::Ask(q)) => {
            let next = s.accept(unit(q));
            if next.0.remaining() + (if next.1 matches Ok(StepView::Ask(_)) {
                1nat
            } else {
                0nat
            }) < s.remaining() + 1 {
                driven(next.0, next.1, unit)
            } else {
                Err(EvaluationErrorView::Unknown)
            }
        },
    }
}

/// The state in which a run ends that stands at `step` in the state `s`, when
/// every request is answered by `unit`: the state that goes with the answer
/// of [`driven`].
pub open spec fn driven_to(
    s: EvaluatorView,
    step: Result<StepView, EvaluationErrorView>,
    unit: spec_fn(RequestView) -> AnswerView,
) -> EvaluatorView
    decreases
            s.remaining() + (if step matches Ok(StepView::Ask(_)) {
                1nat
            } else {
                0nat
            }),
{
    match step {
        Ok(StepView::Ask(q)) => {
            let next = s.accept(unit(q));
            if next.0.remaining() + (if next.1 matches Ok(StepView::Ask(_)) {
                1nat
            } else {
                0nat
            }) < s.remaining() + 1 {
                driven_to(next.0, next.1, unit)
            } else {
                s
            }
        },
        _ => s,
    }
}

/// The state once every literal that awaits conversion is converted by
/// `unit`, the last first; none if `unit` makes no number of one of them.
pub open spec fn conversions(
    s: EvaluatorView,
    unit: spec_fn(RequestView) -> AnswerView,
) -> Option<EvaluatorView>
    decreases s.literals.len(),
{
    if s.literals.len() == 0 {
        Some(s)
    } else {
        match converted(unit, s.literals.last().1) {
            Some(v) => conversions(
                EvaluatorView {
                    values: s.values.insert(s.literals.last().0, v),
                    literals: s.literals.drop_last(),
                    ..s
                },
                unit,
            ),
            None => None,
        }
    }
}

/// A walk that ends with a value under the answers of `unit` has settled
/// every operation, and the value is the one under the id 0.
proof fn lemma_driven_settles(s: EvaluatorView, unit: spec_fn(RequestView) -> AnswerView)
    requires
        s.literals.len() == 0,
        !s.waiting,
    ensures
        driven(s.run().0, s.run().1, unit) matches Ok(v) ==> settled(s, unit) matches Some(f)
            && f.contains_key(0) && f[0] == v,
    decreases s.cursor,
{
    if s.cursor > 0 {
        let id = (s.cursor - 1) as u16;
        let below = (s.cursor - 1) as nat;
        if !s.ops.contains_key(id) {
            let s1 = EvaluatorView { cursor: below, ..s };
            lemma_driven_settles(s1, unit);
            assert(s.run() == s1.run());
            assert(settled(s, unit) == settled(s1, unit));
        } else {
            let e = s.ops[id];
            let o = operands_of(s.values, needed(e));
            match evaluand_plan(e, s.values, s.aliases) {
                Ok(PlanView::Ready(v)) => {
                    let s1 = EvaluatorView { values: s.values.insert(id, v), cursor: below, ..s };
                    lemma_driven_settles(s1, unit);
                    assert(s.run() == s1.run());
                    assert(operation_value(s, unit, id, o) == Some(v));
                    assert(settled(s, unit) == settled(s1, unit));
                },
                Ok(PlanView::Ask(q)) => {
                    let sw = EvaluatorView { waiting: true, ..s };
                    assert(s.run() == (sw, Ok::<StepView, EvaluationErrorView>(StepView::Ask(q))));
                    crate::dynmath::order::lemma_accept_progress(sw, unit(q));
                    let next = sw.accept(unit(q));
                    match evaluand_result(e, s.values, s.aliases, unit(q)) {
                        Ok(v) => {
                            let s2 = EvaluatorView {
                                values: s.values.insert(id, v),
                                cursor: below,
                                ..s
                            };
                            assert(next == s2.run());
                            lemma_driven_settles(s2, unit);
                            assert(driven(sw, s.run().1, unit) == driven(next.0, next.1, unit));
                            assert(operation_value(s, unit, id, o) == Some(v));
                            assert(settled(s, unit) == settled(s2, unit));
                        },
                        Err(err) => {
                            assert(next.1 == Err::<StepView, EvaluationErrorView>(err));
                            assert(driven(next.0, next.1, unit) is Err);
                            assert(driven(sw, s.run().1, unit) is Err);
                        },
                    }
                },
                Err(err) => {
                    assert(s.run().1 == Err::<StepView, EvaluationErrorView>(err));
                    assert(driven(s.run().0, s.run().1, unit) is Err);
                },
            }
        }
    } else {
        assert(settled(s, unit) == Some(s.values));
        assert(s.run().1 == s.finished());
    }
}

/// A run that ends with a value under the answers of `unit` has converted
/// every literal, and goes on from there as a walk of the operations.
proof fn lemma_driven_converts(s: EvaluatorView, unit: spec_fn(RequestView) -> AnswerView)
    requires
        !s.waiting,
    ensures
        driven(s.advance().0, s.advance().1, unit) matches Ok(v) ==> conversions(
            s,
            unit,
        ) matches Some(c) && driven(c.run().0, c.run().1, unit) == Ok::<
            ValueView,
            EvaluationErrorView,
        >(v),
    decreases s.literals.len(),
{
    if s.literals.len() > 0 {
        let text = s.literals.last().1;
        let q = RequestView::Literal(text);
        let sw = EvaluatorView { waiting: true, ..s };
        crate::dynmath::order::lemma_accept_progress(sw, unit(q));
        match converted(unit, text) {
            Some(v) => {
                let s1 = EvaluatorView {
                    values: s.values.insert(s.literals.last().0, v),
                    literals: s.literals.drop_last(),
                    ..s
                };
                assert(s.advance() == (sw, Ok::<StepView, EvaluationErrorView>(StepView::Ask(q))));
                assert(sw.accept(unit(q)) == s1.advance());
                assert(driven(sw, s.advance().1, unit) == driven(
                    s1.advance().0,
                    s1.advance().1,
                    unit,
                ));
                lemma_driven_converts(s1, unit);
                assert(conversions(s, unit) == conversions(s1, unit));
            },
            None => {
                assert(s.advance() == (sw, Ok::<StepView, EvaluationErrorView>(StepView::Ask(q))));
                let next = sw.accept(unit(q));
                assert(next.1 is Err);
                assert(driven(next.0, next.1, unit) is Err);
                assert(driven(sw, s.advance().1, unit) is Err);
            },
        }
    } else {
        assert(s.advance() == s.run());
        assert(conversions(s, unit) == Some(s));
    }
}

proof fn lemma_pending_without_last(literals: Seq<(u16, Seq<char>)>, id: u16, from: int)
    requires
        literals.len() > 0,
        0 <= from <= literals.len() - 1,
    ensures
        pending_literal(literals.drop_last(), id, from) matches Some(text) ==> pending_literal(
            literals,
            id,
            from,
        ) == Some(text),
        pending_literal(literals.drop_last(), id, from) is None ==> pending_literal(
            literals,
            id,
            from,
        ) == (if literals.last().0 == id {
            Some(literals.last().1)
        } else {
            None::<Seq<char>>
        }),
    decreases literals.len() - from,
{
    let fewer = literals.drop_last();
    if from < literals.len() - 1 {
        assert(fewer[from] == literals[from]);
        if literals[from].0 != id {
            lemma_pending_without_last(literals, id, from + 1);
        }
    } else {
        assert(pending_literal(fewer, id, from) is None);
        assert(pending_literal(literals, id, from + 1) is None);
    }
}

/// Converting the literals changes no leaf: the number of a literal is under
/// its id afterwards.
proof fn lemma_conversions_keep_leaves(
    s: EvaluatorView,
    unit: spec_fn(RequestView) -> AnswerView,
    id: u16,
)
    requires
        conversions(s, unit) is Some,
    ensures
        ({
            let c = conversions(s, unit)->Some_0;
            &&& c.same_program(s)
            &&& c.cursor == s.cursor
            &&& c.waiting == s.waiting
            &&& c.literals.len() == 0
            &&& leaf_value(c, unit, id) == leaf_value(s, unit, id)
        }),
    decreases s.literals.len(),
{
    if s.literals.len() > 0 {
        let v = converted(unit, s.literals.last().1)->Some_0;
        let s1 = EvaluatorView {
            values: s.values.insert(s.literals.last().0, v),
            literals: s.literals.drop_last(),
            ..s
        };
        lemma_conversions_keep_leaves(s1, unit, id);
        lemma_pending_without_last(s.literals, id, 0);
    }
}

/// Two states of one program whose leaves have the same values mean the same
/// value under every id.
proof fn lemma_same_leaves_mean_the_same(
    s: EvaluatorView,
    t: EvaluatorView,
    unit: spec_fn(RequestView) -> AnswerView,
    id: u16,
)
    requires
        s.ops == t.ops,
        s.aliases == t.aliases,
        forall|c: u16| leaf_value(s, unit, c) == leaf_value(t, unit, c),
    ensures
        node_value(s, unit, id) == node_value(t, unit, id),
    decreases 0x1_0000 - id,
{
    if s.ops.contains_key(id) {
        let args = needed(s.ops[id]);
        let a = operand_values(s, unit, id);
        let b = operand_values(t, unit, id);
        assert forall|k: int| 0 <= k < args.len() implies a[k] == b[k] by {
            if args[k] > id {
                lemma_same_leaves_mean_the_same(s, t, unit, args[k]);
            }
        }
        assert(a =~= b);
    }
}

/// A run comes to the value that the program means. If a run of an ordered
/// program on given inputs, with every request answered by `unit`, ends with
/// a value, then that is the value which the program means under the id 0, the
/// root, when the inputs are bound: the value of the operation there on the
/// values of its operands, and so on down to the leaves.
pub proof fn lemma_run_means(
    s: EvaluatorView,
    inputs: Seq<(Seq<char>, ValueView)>,
    unit: spec_fn(RequestView) -> AnswerView,
)
    requires
        s.ordered(),
    ensures
        driven(s.start(inputs).0, s.start(inputs).1, unit) matches Ok(v) ==> node_value(
            EvaluatorView { values: s.bound(inputs, 0), ..s },
            unit,
            0,
        ) == Some(v),
{
    let bound = EvaluatorView { values: s.bound(inputs, 0), ..s };
    let begun = EvaluatorView { cursor: s.nodes, waiting: false, ..bound };
    assert(s.start(inputs) == begun.advance());
    if let Ok(v) = driven(s.start(inputs).0, s.start(inputs).1, unit) {
        lemma_driven_converts(begun, unit);
        let c = conversions(begun, unit)->Some_0;
        lemma_conversions_keep_leaves(begun, unit, 0);
        crate::dynmath::order::lemma_evaluation_keeps_order(s, c);
        lemma_driven_settles(c, unit);
        lemma_settled_means(c, unit, 0);
        if !c.ops.contains_key(0) {
            lemma_settled_keeps(c, unit, 0);
        }
        assert(node_value(c, unit, 0) == Some(v));
        assert forall|id: u16| leaf_value(c, unit, id) == leaf_value(bound, unit, id) by {
            lemma_conversions_keep_leaves(begun, unit, id);
        }
        lemma_same_leaves_mean_the_same(c, bound, unit, 0);
    }
}

/// Whether the program means a value under every operation.
pub open spec fn all_operations_mean(
    s: EvaluatorView,
    unit: spec_fn(RequestView) -> AnswerView,
) -> bool {
    forall|p: u16| #[trigger] s.ops.contains_key(p) ==> node_value(s, unit, p) is Some
}

/// Whether `unit` makes a number of every literal that awaits conversion.
pub open spec fn all_literals_convert(
    s: EvaluatorView,
    unit: spec_fn(RequestView) -> AnswerView,
) -> bool {
    forall|j: int|
        0 <= j < s.literals.len() ==> converted(unit, (#[trigger] s.literals[j]).1) is Some
}

/// Whether every operation at or above the cursor has the value that the
/// program means under it.
spec fn done_means(
    s: EvaluatorView,
    origin: EvaluatorView,
    unit: spec_fn(RequestView) -> AnswerView,
) -> bool {
    &&& s == (EvaluatorView { values: s.values, cursor: s.cursor, ..origin })
    &&& s.cursor <= s.nodes
    &&& forall|p: u16|
        s.ops.contains_key(p) && p >= s.cursor ==> #[trigger] s.values.contains_key(p)
            && Some(s.values[p]) == node_value(origin, unit, p)
    &&& forall|x: u16|
        !s.ops.contains_key(x) ==> (#[trigger] s.values.contains_key(x)
            <==> origin.values.contains_key(x)) && (origin.values.contains_key(x)
            ==> s.values[x] == origin.values[x])
}

/// Where the program means a value under every operation, every operation
/// can be settled.
proof fn lemma_settles(
    s: EvaluatorView,
    origin: EvaluatorView,
    unit: spec_fn(RequestView) -> AnswerView,
)
    requires
        origin.ordered(),
        origin.literals.len() == 0,
        all_operations_mean(origin, unit),
        done_means(s, origin, unit),
    ensures
        settled(s, unit) matches Some(f) && (origin.ops.contains_key(0) ==> f.contains_key(0)
            && Some(f[0]) == node_value(origin, unit, 0)) && (!origin.ops.contains_key(0) ==> (
        f.contains_key(0) <==> origin.values.contains_key(0)) && (f.contains_key(0) ==> f[0]
            == origin.values[0])),
    decreases s.cursor,
{
    if s.cursor > 0 {
        let id = (s.cursor - 1) as u16;
        let below = (s.cursor - 1) as nat;
        if !s.ops.contains_key(id) {
            let s1 = EvaluatorView { cursor: below, ..s };
            assert(done_means(s1, origin, unit));
            lemma_settles(s1, origin, unit);
        } else {
            let e = s.ops[id];
            let args = needed(e);
            let found = operand_values(origin, unit, id);
            assert(node_value(origin, unit, id) is Some);
            assert forall|k: int| 0 <= k < args.len() implies s.values.contains_key(
                #[trigger] args[k],
            ) && Some(s.values[args[k]]) == found[k] by {
                let c = e.args[k];
                assert(args[k] == c);
                assert(found[k] is Some);
                assert(c > id || origin.is_input_slot(c));
                if c > id {
                    if !s.ops.contains_key(c) {
                        assert(node_value(origin, unit, c) == leaf_value(origin, unit, c));
                    }
                } else {
                    let j = choose|j: int|
                        0 <= j < origin.aliases.len() && (#[trigger] origin.aliases[j]).1 == c;
                    assert(!origin.ops.contains_key(origin.aliases[j].1));
                }
            }
            crate::dynmath::order::lemma_first_missing_agrees(s.values, s.values, args, 0);
            assert(first_missing(s.values, args, 0) is None) by {
                lemma_none_missing(s.values, args, 0);
            }
            assert(operands_of(s.values, args) =~= all_of(found));
            let v = node_value(origin, unit, id)->Some_0;
            assert(operation_value(s, unit, id, operands_of(s.values, args)) == Some(v));
            let s1 = EvaluatorView { values: s.values.insert(id, v), cursor: below, ..s };
            assert(done_means(s1, origin, unit));
            lemma_settles(s1, origin, unit);
        }
    }
}

proof fn lemma_none_missing(values: Map<u16, ValueView>, args: Seq<u16>, from: int)
    requires
        0 <= from,
        forall|k: int| 0 <= k < args.len() ==> values.contains_key(#[trigger] args[k]),
    ensures
        first_missing(values, args, from) is None,
    decreases args.len() - from,
{
    if from < args.len() {
        lemma_none_missing(values, args, from + 1);
    }
}

/// A walk of operations that can all be settled ends with the value under the
/// id 0, if there is one.
proof fn lemma_settled_drives(s: EvaluatorView, unit: spec_fn(RequestView) -> AnswerView)
    requires
        s.literals.len() == 0,
        !s.waiting,
        settled(s, unit) is Some,
        settled(s, unit)->Some_0.contains_key(0),
    ensures
        driven(s.run().0, s.run().1, unit) == Ok::<ValueView, EvaluationErrorView>(
            settled(s, unit)->Some_0[0],
        ),
    decreases s.cursor,
{
    if s.cursor > 0 {
        let id = (s.cursor - 1) as u16;
        let below = (s.cursor - 1) as nat;
        if !s.ops.contains_key(id) {
            let s1 = EvaluatorView { cursor: below, ..s };
            lemma_settled_drives(s1, unit);
            assert(s.run() == s1.run());
        } else {
            let e = s.ops[id];
            let o = operands_of(s.values, needed(e));
            let v = operation_value(s, unit, id, o)->Some_0;
            let s1 = EvaluatorView { values: s.values.insert(id, v), cursor: below, ..s };
            lemma_settled_drives(s1, unit);
            match evaluand_plan(e, s.values, s.aliases) {
                Ok(PlanView::Ready(w)) => {
                    assert(s.run() == s1.run());
                },
                Ok(PlanView::Ask(q)) => {
                    let sw = EvaluatorView { waiting: true, ..s };
                    assert(s.run() == (sw, Ok::<StepView, EvaluationErrorView>(StepView::Ask(q))));
                    crate::dynmath::order::lemma_accept_progress(sw, unit(q));
                    let next = sw.accept(unit(q));
                    assert(evaluand_result(e, s.values, s.aliases, unit(q)) == Ok::<
                        ValueView,
                        EvaluationErrorView,
                    >(v));
                    assert(next == s1.run());
                    assert(driven(sw, s.run().1, unit) == driven(next.0, next.1, unit));
                },
                Err(_) => {},
            }
        }
    } else {
        assert(s.run().1 == s.finished());
    }
}

/// A run whose literals can all be converted goes on, once they are, as a
/// walk of the operations.
proof fn lemma_converted_drives(s: EvaluatorView, unit: spec_fn(RequestView) -> AnswerView)
    requires
        !s.waiting,
        all_literals_convert(s, unit),
    ensures
        conversions(s, unit) matches Some(c) && driven(s.advance().0, s.advance().1, unit)
            == driven(c.run().0, c.run().1, unit),
    decreases s.literals.len(),
{
    if s.literals.len() > 0 {
        let text = s.literals.last().1;
        let q = RequestView::Literal(text);
        let sw = EvaluatorView { waiting: true, ..s };
        crate::dynmath::order::lemma_accept_progress(sw, unit(q));
        let v = converted(unit, text)->Some_0;
        let s1 = EvaluatorView {
            values: s.values.insert(s.literals.last().0, v),
            literals: s.literals.drop_last(),
            ..s
        };
        assert(s.advance() == (sw, Ok::<StepView, EvaluationErrorView>(StepView::Ask(q))));
        assert(sw.accept(unit(q)) == s1.advance());
        assert(driven(sw, s.advance().1, unit) == driven(s1.advance().0, s1.advance().1, unit));
        assert forall|j: int| 0 <= j < s1.literals.len() implies converted(
            unit,
            (#[trigger] s1.literals[j]).1,
        ) is Some by {
            assert(s1.literals[j] == s.literals[j]);
        }
        lemma_converted_drives(s1, unit);
    } else {
        assert(s.advance() == s.run());
    }
}

/// A run ends with the value that the program means, where it means one
/// everywhere. If, with the inputs bound, `unit` makes a number of every
/// literal and the program means a value under every operation, then the run
/// on these inputs, with every request answered by `unit`, ends with the value
/// that the program means under the id 0.
pub proof fn lemma_run_succeeds(
    s: EvaluatorView,
    inputs: Seq<(Seq<char>, ValueView)>,
    unit: spec_fn(RequestView) -> AnswerView,
)
    requires
        s.ordered(),
        all_literals_convert(s, unit),
        all_operations_mean(EvaluatorView { values: s.bound(inputs, 0), ..s }, unit),
        node_value(EvaluatorView { values: s.bound(inputs, 0), ..s }, unit, 0) is Some,
    ensures
        driven(s.start(inputs).0, s.start(inputs).1, unit) == Ok::<ValueView, EvaluationErrorView>(
            node_value(EvaluatorView { values: s.bound(inputs, 0), ..s }, unit, 0)->Some_0,
        ),
{
    let bound = EvaluatorView { values: s.bound(inputs, 0), ..s };
    let begun = EvaluatorView { cursor: s.nodes, waiting: false, ..bound };
    assert(s.start(inputs) == begun.advance());
    lemma_converted_drives(begun, unit);
    let c = conversions(begun, unit)->Some_0;
    lemma_conversions_keep_leaves(begun, unit, 0);
    crate::dynmath::order::lemma_evaluation_keeps_order(s, c);
    assert forall|id: u16| leaf_value(c, unit, id) == leaf_value(bound, unit, id) by {
        lemma_conversions_keep_leaves(begun, unit, id);
    }
    assert forall|p: u16| #[trigger] c.ops.contains_key(p) implies node_value(c, unit, p)
        is Some by {
        lemma_same_leaves_mean_the_same(c, bound, unit, p);
        assert(bound.ops.contains_key(p));
    }
    lemma_same_leaves_mean_the_same(c, bound, unit, 0);
    assert(done_means(c, c, unit));
    lemma_settles(c, c, unit);
    let f = settled(c, unit)->Some_0;
    assert(f.contains_key(0) && Some(f[0]) == node_value(c, unit, 0)) by {
        if !c.ops.contains_key(0) {
            assert(node_value(c, unit, 0) == leaf_value(c, unit, 0));
        }
    }
    lemma_settled_drives(c, unit);
}

} // verus!
