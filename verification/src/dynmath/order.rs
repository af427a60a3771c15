//! The order of the ids in a flattened program, and what follows from it.

use vstd::prelude::*;
use crate::dynmath::eval::{
    compile, evaluand_plan, evaluand_result, first_missing, lookup, lookup_from, needed,
    operands_of, EvaluandView, EvaluatorView,
};
use crate::dynmath::{AnswerView, ValueView};
use crate::parser::{tree_of, BranchView};
use crate::tokenizer::token::TokenView;

verus! {

/// The name of an input, if the tree is a leaf with such a name.
pub open spec fn input_name(tree: BranchView) -> Option<Seq<char>> {
    match tree {
        BranchView::Atom(tc) => match tc.token {
            TokenView::Var(name) => Some(name),
            _ => None,
        },
        _ => None,
    }
}

pub proof fn lemma_lookup_is_slot(a: Seq<(Seq<char>, u16)>, name: Seq<char>, from: int)
    requires
        0 <= from,
    ensures
        lookup_from(a, name, from) matches Some(id) ==> exists|j: int|
            from <= j < a.len() && (#[trigger] a[j]).1 == id,
    decreases a.len() - from,
{
    if from < a.len() && a[from].0 != name {
        lemma_lookup_is_slot(a, name, from + 1);
    }
}

pub proof fn lemma_lookup_stays(
    a: Seq<(Seq<char>, u16)>,
    b: Seq<(Seq<char>, u16)>,
    name: Seq<char>,
    from: int,
)
    requires
        0 <= from,
        a.len() <= b.len(),
        forall|j: int| 0 <= j < a.len() ==> b[j] == a[j],
        lookup_from(a, name, from) is Some,
    ensures
        lookup_from(b, name, from) == lookup_from(a, name, from),
    decreases a.len() - from,
{
    if from < a.len() && a[from].0 != name {
        lemma_lookup_stays(a, b, name, from + 1);
    }
}

proof fn lemma_lookup_finds_last(a: Seq<(Seq<char>, u16)>, name: Seq<char>, id: u16, from: int)
    requires
        0 <= from <= a.len(),
    ensures
        lookup_from(a.push((name, id)), name, from) is Some,
    decreases a.len() - from,
{
    let b = a.push((name, id));
    if from < a.len() {
        if b[from].0 != name {
            lemma_lookup_finds_last(a, name, id, from + 1);
        }
    } else {
        assert(b[from].0 == name);
    }
}

pub proof fn lemma_slots_stay(s: EvaluatorView, t: EvaluatorView, id: u16)
    requires
        t.grown_from(s),
    ensures
        s.is_input_slot(id) ==> t.is_input_slot(id),
        (id as nat) < s.nodes && !s.is_input_slot(id) ==> !t.is_input_slot(id),
{
    if s.is_input_slot(id) {
        let j = choose|j: int| 0 <= j < s.aliases.len() && (#[trigger] s.aliases[j]).1 == id;
        assert(t.aliases[j].1 == id);
    }
    if (id as nat) < s.nodes && !s.is_input_slot(id) && t.is_input_slot(id) {
        let j = choose|j: int| 0 <= j < t.aliases.len() && (#[trigger] t.aliases[j]).1 == id;
        if j < s.aliases.len() {
            assert(s.aliases[j].1 == id);
        }
    }
}

pub proof fn lemma_grown_twice(s: EvaluatorView, t: EvaluatorView, u: EvaluatorView)
    requires
        t.grown_from(s),
        u.grown_from(t),
    ensures
        u.grown_from(s),
{
}

/// A state that differs from an ordered one by new ids and new names for new
/// ids only is ordered.
pub proof fn lemma_ordered_stays(s: EvaluatorView, t: EvaluatorView)
    requires
        s.ordered(),
        t.grown_from(s),
        t.ops == s.ops,
        t.nodes <= 0x1_0000,
        forall|j: int|
            s.aliases.len() <= j < t.aliases.len() ==> ((#[trigger] t.aliases[j]).1 as nat)
                < t.nodes,
    ensures
        t.ordered(),
{
    assert forall|p: u16, k: int|
        t.ops.contains_key(p) && 0 <= k < t.ops[p].args.len() implies {
        let c = #[trigger] t.ops[p].args[k];
        (c as nat) < t.nodes && (c > p || t.is_input_slot(c))
    } by {
        let c = s.ops[p].args[k];
        lemma_slots_stay(s, t, c);
    }
    assert forall|j: int| 0 <= j < t.aliases.len() implies ((#[trigger] t.aliases[j]).1 as nat)
        < t.nodes && !t.ops.contains_key(t.aliases[j].1) by {
        if j < s.aliases.len() {
            assert(t.aliases[j] == s.aliases[j]);
        } else {
            if t.ops.contains_key(t.aliases[j].1) {
                assert(s.ops.contains_key(t.aliases[j].1));
            }
        }
    }
}

pub proof fn lemma_child_slot_ordered(s: EvaluatorView, child: BranchView)
    requires
        s.ordered(),
    ensures
        s.child_slot(child) matches Some((id, t)) ==> {
            &&& t.ordered()
            &&& t.grown_from(s)
            &&& t.ops == s.ops
            &&& t.values == s.values
            &&& t.literals == s.literals
            &&& (id as nat) < t.nodes
            &&& (id >= s.nodes || t.is_input_slot(id))
            &&& (input_name(child) is None ==> id >= s.nodes && !t.is_input_slot(id))
            &&& (input_name(child) matches Some(name) ==> lookup(t.aliases, name) is Some)
        },
{
    match s.child_slot(child) {
        Some((id, t)) => {
            match input_name(child) {
                Some(name) => {
                    match lookup(s.aliases, name) {
                        Some(_) => {
                            lemma_lookup_is_slot(s.aliases, name, 0);
                        },
                        None => {
                            assert(t.aliases.last().1 == id);
                            lemma_ordered_stays(s, t);
                            lemma_lookup_finds_last(s.aliases, name, id, 0);
                        },
                    }
                },
                None => {
                    lemma_ordered_stays(s, t);
                    if t.is_input_slot(id) {
                        let j = choose|j: int|
                            0 <= j < t.aliases.len() && (#[trigger] t.aliases[j]).1 == id;
                        assert(s.aliases[j].1 == id);
                    }
                },
            }
        },
        None => {},
    }
}

/// In the program of any tree, every operand of an operation has a higher id
/// than the operation itself, unless it is the slot of an input; no slot of an
/// input is an operation; and every id in use is below the number of ids.
pub proof fn lemma_flatten_ordered(tree: BranchView)
    ensures
        EvaluatorView::flatten(tree) matches Some(s) ==> s.ordered(),
{
    crate::dynmath::faithful::lemma_flatten_laid(tree);
}

/// In the program of any expression that compiles, every operand of an
/// operation has a higher id than the operation itself, unless it is the slot
/// of an input.
pub proof fn lemma_compiled_ordered(src: Seq<char>, vars: Seq<Seq<char>>)
    ensures
        compile(src, vars) matches Ok(s) ==> s.ordered(),
{
    if let Ok(tree) = tree_of(src, vars) {
        lemma_flatten_ordered(tree);
    }
}

/// Evaluating never changes the program, so it keeps the order of the ids:
/// neither a run's start nor an answer taken touches an operation, a name or
/// the number of ids.
pub proof fn lemma_evaluation_keeps_order(s: EvaluatorView, t: EvaluatorView)
    requires
        s.ordered(),
        t.same_program(s),
    ensures
        t.ordered(),
{
    assert forall|p: u16, k: int|
        t.ops.contains_key(p) && 0 <= k < t.ops[p].args.len() implies {
        let c = #[trigger] t.ops[p].args[k];
        (c as nat) < t.nodes && (c > p || t.is_input_slot(c))
    } by {
        let c = s.ops[p].args[k];
        if s.is_input_slot(c) {
            let j = choose|j: int| 0 <= j < s.aliases.len() && (#[trigger] s.aliases[j]).1 == c;
            assert(t.aliases[j].1 == c);
        }
    }
}

/// Values that are at hand under the same ids have the same first missing
/// id; and where none is missing, all are at hand.
pub proof fn lemma_first_missing_agrees(
    a: Map<u16, ValueView>,
    b: Map<u16, ValueView>,
    args: Seq<u16>,
    from: int,
)
    requires
        0 <= from,
        forall|k: int|
            0 <= k < args.len() ==> (a.contains_key(#[trigger] args[k]) <==> b.contains_key(
                args[k],
            )),
    ensures
        first_missing(a, args, from) == first_missing(b, args, from),
        first_missing(a, args, from) is None ==> forall|k: int|
            from <= k < args.len() ==> a.contains_key(#[trigger] args[k]),
    decreases args.len() - from,
{
    if from < args.len() {
        if a.contains_key(args[from]) {
            lemma_first_missing_agrees(a, b, args, from + 1);
        }
    }
}

/// Two states that agree see the same operands for the operation just below
/// the cursor, so the operation comes to the same in both, before and after
/// an answer.
proof fn lemma_operation_agrees(s: EvaluatorView, t: EvaluatorView, id: u16)
    requires
        s.ordered(),
        s.agrees_with(t),
        s.cursor == id + 1,
        s.ops.contains_key(id),
    ensures
        evaluand_plan(s.ops[id], s.values, s.aliases) == evaluand_plan(
            t.ops[id],
            t.values,
            t.aliases,
        ),
        forall|answer: AnswerView|
            evaluand_result(s.ops[id], s.values, s.aliases, answer) == #[trigger] evaluand_result(
                t.ops[id],
                t.values,
                t.aliases,
                answer,
            ),
{
    let e = s.ops[id];
    let args = needed(e);
    assert forall|k: int| 0 <= k < args.len() implies (!s.ops.contains_key(#[trigger] args[k])
        || args[k] >= s.cursor) by {
        let c = e.args[k];
        assert(args[k] == c);
        assert(c > id || s.is_input_slot(c));
        if s.is_input_slot(c) {
            let j = choose|j: int| 0 <= j < s.aliases.len() && (#[trigger] s.aliases[j]).1 == c;
            assert(!s.ops.contains_key(s.aliases[j].1));
        }
    }
    assert forall|k: int| 0 <= k < args.len() implies (s.values.contains_key(#[trigger] args[k])
        <==> t.values.contains_key(args[k])) by {
        assert(!s.ops.contains_key(args[k]) || args[k] >= s.cursor);
    }
    lemma_first_missing_agrees(s.values, t.values, args, 0);
    if first_missing(s.values, args, 0) is None {
        assert(operands_of(s.values, args) =~= operands_of(t.values, args)) by {
            assert forall|k: int| 0 <= k < args.len() implies s.values[#[trigger] args[k]]
                == t.values[args[k]] by {
                assert(!s.ops.contains_key(args[k]) || args[k] >= s.cursor);
                assert(s.values.contains_key(args[k]));
            }
        }
    }
}

/// Two states that agree walk the operations alike: they come to the same
/// step, and agree again after it.
proof fn lemma_run_agrees(s: EvaluatorView, t: EvaluatorView)
    requires
        s.ordered(),
        s.agrees_with(t),
    ensures
        s.run().1 == t.run().1,
        s.run().0.agrees_with(t.run().0),
    decreases s.cursor,
{
    if s.cursor == 0 {
        assert(s.values.contains_key(0) <==> t.values.contains_key(0));
    } else {
        let id = (s.cursor - 1) as u16;
        let below = (s.cursor - 1) as nat;
        if !s.ops.contains_key(id) {
            let s1 = EvaluatorView { cursor: below, ..s };
            let t1 = EvaluatorView { cursor: below, ..t };
            assert(s1.agrees_with(t1));
            lemma_run_agrees(s1, t1);
        } else {
            lemma_operation_agrees(s, t, id);
            match evaluand_plan(s.ops[id], s.values, s.aliases) {
                Ok(crate::dynmath::eval::PlanView::Ready(v)) => {
                    let s1 = EvaluatorView { values: s.values.insert(id, v), cursor: below, ..s };
                    let t1 = EvaluatorView { values: t.values.insert(id, v), cursor: below, ..t };
                    assert(s1.agrees_with(t1));
                    lemma_run_agrees(s1, t1);
                },
                _ => {},
            }
        }
    }
}

/// Two states that agree go on alike: they come to the same step, and agree
/// again after it.
pub proof fn lemma_advance_agrees(s: EvaluatorView, t: EvaluatorView)
    requires
        s.ordered(),
        s.agrees_with(t),
    ensures
        s.advance().1 == t.advance().1,
        s.advance().0.agrees_with(t.advance().0),
{
    if s.literals.len() == 0 {
        lemma_run_agrees(s, t);
    }
}

/// Binding the same inputs keeps two states alike at every id that is no
/// operation.
pub proof fn lemma_bound_agrees(
    s: EvaluatorView,
    t: EvaluatorView,
    inputs: Seq<(Seq<char>, ValueView)>,
    from: int,
)
    requires
        0 <= from,
        s.same_leaves(t),
    ensures
        (EvaluatorView { values: s.bound(inputs, from), ..s }).same_leaves(
            EvaluatorView { values: t.bound(inputs, from), ..t },
        ),
    decreases inputs.len() - from,
{
    if from < inputs.len() {
        match lookup(s.aliases, inputs[from].0) {
            Some(id) => {
                let s1 = EvaluatorView { values: s.values.insert(id, inputs[from].1), ..s };
                let t1 = EvaluatorView { values: t.values.insert(id, inputs[from].1), ..t };
                assert(s1.same_leaves(t1));
                lemma_bound_agrees(s1, t1, inputs, from + 1);
            },
            None => {
                lemma_bound_agrees(s, t, inputs, from + 1);
            },
        }
    }
}

/// What is left of earlier runs does not bear on a new one. Two states of one
/// ordered program that hold the same values wherever there is no operation,
/// and the same literals awaiting conversion, begin a run on the same inputs
/// with the same step, and agree from then on.
pub proof fn lemma_start_agrees(
    s: EvaluatorView,
    t: EvaluatorView,
    inputs: Seq<(Seq<char>, ValueView)>,
)
    requires
        s.ordered(),
        s.same_leaves(t),
    ensures
        s.start(inputs).1 == t.start(inputs).1,
        s.start(inputs).0.agrees_with(t.start(inputs).0),
{
    lemma_bound_agrees(s, t, inputs, 0);
    let s1 = EvaluatorView {
        values: s.bound(inputs, 0),
        cursor: s.nodes,
        waiting: false,
        ..s
    };
    let t1 = EvaluatorView {
        values: t.bound(inputs, 0),
        cursor: t.nodes,
        waiting: false,
        ..t
    };
    let sb = EvaluatorView { values: s.bound(inputs, 0), ..s };
    let tb = EvaluatorView { values: t.bound(inputs, 0), ..t };
    assert(sb.same_leaves(tb));
    assert forall|id: u16| !s1.ops.contains_key(id) || id >= s1.cursor implies (
    #[trigger] s1.values.contains_key(id) <==> t1.values.contains_key(id)) by {
        if s.ops.contains_key(id) {
            assert((id as nat) < s.nodes);
        } else {
            assert(sb.values.contains_key(id) <==> tb.values.contains_key(id));
        }
    }
    assert forall|id: u16|
        (!s1.ops.contains_key(id) || id >= s1.cursor) && #[trigger] s1.values.contains_key(
            id,
        ) implies s1.values[id] == t1.values[id] by {
        if s.ops.contains_key(id) {
            assert((id as nat) < s.nodes);
        } else {
            assert(sb.values.contains_key(id));
            assert(sb.values[id] == tb.values[id]);
        }
    }
    assert(s1.agrees_with(t1));
    lemma_evaluation_keeps_order(s, s1);
    lemma_advance_agrees(s1, t1);
}

/// Two states that agree take the same answer alike: they come to the same
/// next step, and agree again. So two runs of one program on the same inputs,
/// given the same answers, take the same steps to the same value, whatever
/// earlier runs have left behind.
pub proof fn lemma_accept_agrees(s: EvaluatorView, t: EvaluatorView, answer: AnswerView)
    requires
        s.ordered(),
        s.agrees_with(t),
    ensures
        s.accept(answer).1 == t.accept(answer).1,
        s.accept(answer).0.agrees_with(t.accept(answer).0),
{
    if !s.waiting {
    } else if s.literals.len() > 0 {
        if let AnswerView::Numbers(r) = answer {
            if r.len() == 1 {
                let at = s.literals.last().0;
                let s1 = EvaluatorView {
                    values: s.values.insert(at, ValueView::Number(r[0])),
                    literals: s.literals.drop_last(),
                    waiting: false,
                    ..s
                };
                let t1 = EvaluatorView {
                    values: t.values.insert(at, ValueView::Number(r[0])),
                    literals: t.literals.drop_last(),
                    waiting: false,
                    ..t
                };
                assert(s1.agrees_with(t1));
                lemma_evaluation_keeps_order(s, s1);
                lemma_advance_agrees(s1, t1);
            }
        }
    } else if s.cursor == 0 || !s.ops.contains_key((s.cursor - 1) as u16) {
    } else {
        let id = (s.cursor - 1) as u16;
        lemma_operation_agrees(s, t, id);
        if let Ok(v) = evaluand_result(s.ops[id], s.values, s.aliases, answer) {
            let s1 = EvaluatorView {
                values: s.values.insert(id, v),
                cursor: (s.cursor - 1) as nat,
                waiting: false,
                ..s
            };
            let t1 = EvaluatorView {
                values: t.values.insert(id, v),
                cursor: (t.cursor - 1) as nat,
                waiting: false,
                ..t
            };
            assert(s1.agrees_with(t1));
            lemma_evaluation_keeps_order(s, s1);
            lemma_run_agrees(s1, t1);
        }
    }
}

/// A walk never moves the cursor up, and leaves the literals alone.
proof fn lemma_run_progress(s: EvaluatorView)
    ensures
        s.run().0.cursor <= s.cursor,
        s.run().0.literals == s.literals,
    decreases s.cursor,
{
    if s.cursor > 0 {
        let id = (s.cursor - 1) as u16;
        let below = (s.cursor - 1) as nat;
        if !s.ops.contains_key(id) {
            lemma_run_progress(EvaluatorView { cursor: below, ..s });
        } else {
            match evaluand_plan(s.ops[id], s.values, s.aliases) {
                Ok(crate::dynmath::eval::PlanView::Ready(v)) => {
                    lemma_run_progress(
                        EvaluatorView { values: s.values.insert(id, v), cursor: below, ..s },
                    );
                },
                _ => {},
            }
        }
    }
}

/// Every answer brings a run nearer to its end: after it, fewer requests
/// remain if another request is made, and never more.
pub proof fn lemma_accept_progress(s: EvaluatorView, answer: AnswerView)
    ensures
        s.accept(answer).0.remaining() <= s.remaining(),
        s.accept(answer).1 matches Ok(crate::dynmath::eval::StepView::Ask(_)) ==> s.accept(
            answer,
        ).0.remaining() < s.remaining(),
{
    if !s.waiting {
    } else if s.literals.len() > 0 {
        if let AnswerView::Numbers(r) = answer {
            if r.len() == 1 {
                let s1 = EvaluatorView {
                    values: s.values.insert(s.literals.last().0, ValueView::Number(r[0])),
                    literals: s.literals.drop_last(),
                    waiting: false,
                    ..s
                };
                if s1.literals.len() == 0 {
                    lemma_run_progress(s1);
                }
            }
        }
    } else if s.cursor == 0 || !s.ops.contains_key((s.cursor - 1) as u16) {
    } else {
        let id = (s.cursor - 1) as u16;
        if let Ok(v) = evaluand_result(s.ops[id], s.values, s.aliases, answer) {
            lemma_run_progress(
                EvaluatorView {
                    values: s.values.insert(id, v),
                    cursor: (s.cursor - 1) as nat,
                    waiting: false,
                    ..s
                },
            );
        }
    }
}

} // verus!
