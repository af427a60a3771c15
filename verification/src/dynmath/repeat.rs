//! Running a program again.
//!
//! A run leaves its traces in the state: literals are converted, operations
//! have values. That none of this bears on the next run is proved here: a
//! program that is run again on the same inputs, with the same arithmetic,
//! comes to the same answer, value or error.

use vstd::prelude::*;
use crate::dynmath::eval::{compile, evaluand_plan, evaluand_result, lookup, EvaluatorView};
use crate::dynmath::eval::{PlanView, StepView};
use crate::dynmath::faithful::lemma_flatten_laid;
use crate::dynmath::meaning::{converted, driven, driven_to, pending_literal};
use crate::dynmath::order::{
    lemma_accept_agrees, lemma_accept_progress, lemma_advance_agrees, lemma_bound_agrees,
    lemma_evaluation_keeps_order, lemma_lookup_is_slot,
};
use crate::dynmath::{AnswerView, EvaluationErrorView, RequestView, ValueView};
use crate::parser::tree_of;

verus! {

/// Whether the literals and the inputs keep apart: no literal awaits
/// conversion under the id of an input.
pub open spec fn apart(s: EvaluatorView) -> bool {
    forall|i: int, j: int|
        0 <= i < s.literals.len() && 0 <= j < s.aliases.len() ==> (#[trigger] s.literals[i]).0 != (
        #[trigger] s.aliases[j]).1
}

/// The values at hand once the literals at and behind the `k`-th are
/// converted by `unit`, the last first.
pub open spec fn converted_from(
    values: Map<u16, ValueView>,
    literals: Seq<(u16, Seq<char>)>,
    k: int,
    unit: spec_fn(RequestView) -> AnswerView,
) -> Map<u16, ValueView>
    decreases literals.len() - k,
{
    if 0 <= k < literals.len() {
        match converted(unit, literals[k].1) {
            Some(v) => converted_from(values, literals, k + 1, unit).insert(literals[k].0, v),
            None => converted_from(values, literals, k + 1, unit),
        }
    } else {
        values
    }
}

/// Whether two tables hold the same under an id.
pub open spec fn alike_at(a: Map<u16, ValueView>, b: Map<u16, ValueView>, id: u16) -> bool {
    (a.contains_key(id) <==> b.contains_key(id)) && (a.contains_key(id) ==> a[id] == b[id])
}

/// Whether the state `x` has come up in a run that began in the state
/// `begun`: it belongs to the same program; the literals that still await
/// conversion are the first of those that did at the beginning; every other
/// was converted; and wherever there is no operation, the values are those of
/// the beginning with the converted literals.
pub open spec fn kept(
    begun: EvaluatorView,
    x: EvaluatorView,
    unit: spec_fn(RequestView) -> AnswerView,
) -> bool {
    &&& x.same_program(begun)
    &&& x.literals.len() <= begun.literals.len()
    &&& x.literals == begun.literals.take(x.literals.len() as int)
    &&& forall|j: int|
        x.literals.len() <= j < begun.literals.len() ==> converted(
            unit,
            (#[trigger] begun.literals[j]).1,
        ) is Some
    &&& forall|id: u16|
        !x.ops.contains_key(id) ==> #[trigger] alike_at(
            x.values,
            converted_from(begun.values, begun.literals, x.literals.len() as int, unit),
            id,
        )
}

/// Whether a step is one that the state has come to: while literals await
/// conversion, a request is for the last of them.
pub open spec fn asked_of(x: EvaluatorView, step: Result<StepView, EvaluationErrorView>) -> bool {
    step matches Ok(StepView::Ask(q)) ==> x.waiting && (x.literals.len() > 0 ==> q
        == RequestView::Literal(x.literals.last().1))
}

/// The last value that the inputs at and behind `from` give to the id:
/// that of the last input whose name stands for it.
pub open spec fn binding(
    aliases: Seq<(Seq<char>, u16)>,
    inputs: Seq<(Seq<char>, ValueView)>,
    id: u16,
    from: int,
) -> Option<ValueView>
    decreases inputs.len() - from,
{
    if 0 <= from < inputs.len() {
        match binding(aliases, inputs, id, from + 1) {
            Some(v) => Some(v),
            None => if lookup(aliases, inputs[from].0) == Some(id) {
                Some(inputs[from].1)
            } else {
                None
            },
        }
    } else {
        None
    }
}

/// Binding inputs puts under each id the last value that the inputs give
/// to it, and leaves an id alone that they give none.
proof fn lemma_bound_is(s: EvaluatorView, inputs: Seq<(Seq<char>, ValueView)>, from: int, id: u16)
    requires
        0 <= from,
    ensures
        match binding(s.aliases, inputs, id, from) {
            Some(v) => s.bound(inputs, from).contains_key(id) && s.bound(inputs, from)[id] == v,
            None => alike_at(s.bound(inputs, from), s.values, id),
        },
        binding(s.aliases, inputs, id, from) is Some ==> s.is_input_slot(id),
    decreases inputs.len() - from,
{
    if from < inputs.len() {
        match lookup(s.aliases, inputs[from].0) {
            Some(at) => {
                let s1 = EvaluatorView { values: s.values.insert(at, inputs[from].1), ..s };
                lemma_bound_is(s1, inputs, from + 1, id);
                lemma_lookup_is_slot(s.aliases, inputs[from].0, 0);
                if s1.is_input_slot(id) {
                    let j = choose|j: int|
                        0 <= j < s1.aliases.len() && (#[trigger] s1.aliases[j]).1 == id;
                    assert(s.aliases[j].1 == id);
                }
            },
            None => {
                lemma_bound_is(s, inputs, from + 1, id);
            },
        }
    }
}

/// Converting literals leaves an id alone under which none of them stands.
proof fn lemma_converted_elsewhere(
    values: Map<u16, ValueView>,
    literals: Seq<(u16, Seq<char>)>,
    k: int,
    unit: spec_fn(RequestView) -> AnswerView,
    id: u16,
)
    requires
        0 <= k,
        forall|j: int| k <= j < literals.len() ==> (#[trigger] literals[j]).0 != id,
    ensures
        alike_at(converted_from(values, literals, k, unit), values, id),
    decreases literals.len() - k,
{
    if k < literals.len() {
        lemma_converted_elsewhere(values, literals, k + 1, unit, id);
    }
}

/// To convert the last literal first, and then the others, is to convert
/// them all.
proof fn lemma_converted_last_first(
    values: Map<u16, ValueView>,
    literals: Seq<(u16, Seq<char>)>,
    k: int,
    unit: spec_fn(RequestView) -> AnswerView,
)
    requires
        0 <= k < literals.len(),
        converted(unit, literals.last().1) is Some,
    ensures
        converted_from(
            values.insert(literals.last().0, converted(unit, literals.last().1)->Some_0),
            literals.drop_last(),
            k,
            unit,
        ) == converted_from(values, literals, k, unit),
    decreases literals.len() - k,
{
    let fewer = literals.drop_last();
    let first = values.insert(literals.last().0, converted(unit, literals.last().1)->Some_0);
    if k < literals.len() - 1 {
        assert(fewer[k] == literals[k]);
        lemma_converted_last_first(values, literals, k + 1, unit);
    } else {
        assert(converted_from(first, fewer, k, unit) == first);
        assert(converted_from(values, literals, k + 1, unit) == values);
    }
}

/// A walk of the operations changes no value but those of operations, and
/// asks only when no literal is left to ask for.
proof fn lemma_run_keeps(s: EvaluatorView, id: u16)
    requires
        !s.ops.contains_key(id),
    ensures
        s.run().0.same_program(s),
        s.run().0.literals == s.literals,
        alike_at(s.run().0.values, s.values, id),
        s.run().1 matches Ok(StepView::Ask(_)) ==> s.run().0.waiting,
    decreases s.cursor,
{
    if s.cursor > 0 {
        let at = (s.cursor - 1) as u16;
        let below = (s.cursor - 1) as nat;
        if !s.ops.contains_key(at) {
            lemma_run_keeps(EvaluatorView { cursor: below, ..s }, id);
        } else {
            match evaluand_plan(s.ops[at], s.values, s.aliases) {
                Ok(PlanView::Ready(v)) => {
                    lemma_run_keeps(
                        EvaluatorView { values: s.values.insert(at, v), cursor: below, ..s },
                        id,
                    );
                },
                _ => {},
            }
        }
    }
}

/// Going on with a run keeps what [`kept`] says, and comes to a step that
/// the new state has come to.
proof fn lemma_advance_kept(
    begun: EvaluatorView,
    x: EvaluatorView,
    unit: spec_fn(RequestView) -> AnswerView,
)
    requires
        kept(begun, x, unit),
    ensures
        kept(begun, x.advance().0, unit),
        asked_of(x.advance().0, x.advance().1),
{
    if x.literals.len() == 0 {
        let y = x.run().0;
        lemma_run_same_program(x);
        assert forall|id: u16| !y.ops.contains_key(id) implies #[trigger] alike_at(
            y.values,
            converted_from(begun.values, begun.literals, y.literals.len() as int, unit),
            id,
        ) by {
            lemma_run_keeps(x, id);
            assert(alike_at(
                x.values,
                converted_from(begun.values, begun.literals, x.literals.len() as int, unit),
                id,
            ));
        }
    }
}

/// A walk of the operations stays in its program, with its literals.
proof fn lemma_run_same_program(s: EvaluatorView)
    ensures
        s.run().0.same_program(s),
        s.run().0.literals == s.literals,
        s.run().1 matches Ok(StepView::Ask(_)) ==> s.run().0.waiting,
    decreases s.cursor,
{
    if s.cursor > 0 {
        let at = (s.cursor - 1) as u16;
        let below = (s.cursor - 1) as nat;
        if !s.ops.contains_key(at) {
            lemma_run_same_program(EvaluatorView { cursor: below, ..s });
        } else {
            match evaluand_plan(s.ops[at], s.values, s.aliases) {
                Ok(PlanView::Ready(v)) => {
                    lemma_run_same_program(
                        EvaluatorView { values: s.values.insert(at, v), cursor: below, ..s },
                    );
                },
                _ => {},
            }
        }
    }
}

/// Taking an answer leaves a state in its program.
proof fn lemma_accept_same_program(x: EvaluatorView, answer: AnswerView)
    ensures
        x.accept(answer).0.same_program(x),
{
    if !x.waiting {
    } else if x.literals.len() > 0 {
        if let AnswerView::Numbers(r) = answer {
            if r.len() == 1 {
                let x1 = EvaluatorView {
                    values: x.values.insert(x.literals.last().0, ValueView::Number(r[0])),
                    literals: x.literals.drop_last(),
                    waiting: false,
                    ..x
                };
                lemma_run_same_program(x1);
            }
        }
    } else if x.cursor == 0 || !x.ops.contains_key((x.cursor - 1) as u16) {
    } else {
        let at = (x.cursor - 1) as u16;
        if let Ok(v) = evaluand_result(x.ops[at], x.values, x.aliases, answer) {
            lemma_run_same_program(
                EvaluatorView {
                    values: x.values.insert(at, v),
                    cursor: (x.cursor - 1) as nat,
                    waiting: false,
                    ..x
                },
            );
        }
    }
}

/// Taking the answer of `unit` to the request that is out keeps what
/// [`kept`] says.
proof fn lemma_accept_kept(
    begun: EvaluatorView,
    x: EvaluatorView,
    q: RequestView,
    unit: spec_fn(RequestView) -> AnswerView,
)
    requires
        kept(begun, x, unit),
        asked_of(x, Ok(StepView::Ask(q))),
    ensures
        kept(begun, x.accept(unit(q)).0, unit),
        asked_of(x.accept(unit(q)).0, x.accept(unit(q)).1),
{
    let answer = unit(q);
    let stopped = EvaluatorView { waiting: false, ..x };
    assert(kept(begun, stopped, unit));
    if x.literals.len() > 0 {
        let k = x.literals.len() as int;
        assert(x.literals.last() == begun.literals[k - 1]);
        match converted(unit, x.literals.last().1) {
            Some(v) => {
                let x1 = EvaluatorView {
                    values: x.values.insert(x.literals.last().0, v),
                    literals: x.literals.drop_last(),
                    waiting: false,
                    ..x
                };
                assert(x1.literals =~= begun.literals.take(k - 1));
                assert forall|id: u16| !x1.ops.contains_key(id) implies #[trigger] alike_at(
                    x1.values,
                    converted_from(begun.values, begun.literals, k - 1, unit),
                    id,
                ) by {
                    assert(alike_at(
                        x.values,
                        converted_from(begun.values, begun.literals, k, unit),
                        id,
                    ));
                }
                assert(kept(begun, x1, unit));
                lemma_advance_kept(begun, x1, unit);
            },
            None => {},
        }
    } else if x.cursor == 0 || !x.ops.contains_key((x.cursor - 1) as u16) {
    } else {
        let at = (x.cursor - 1) as u16;
        if let Ok(v) = evaluand_result(x.ops[at], x.values, x.aliases, answer) {
            let x1 = EvaluatorView {
                values: x.values.insert(at, v),
                cursor: (x.cursor - 1) as nat,
                waiting: false,
                ..x
            };
            assert forall|id: u16| !x1.ops.contains_key(id) implies #[trigger] alike_at(
                x1.values,
                converted_from(begun.values, begun.literals, x1.literals.len() as int, unit),
                id,
            ) by {
                assert(alike_at(
                    x.values,
                    converted_from(begun.values, begun.literals, x.literals.len() as int, unit),
                    id,
                ));
            }
            assert(kept(begun, x1, unit));
            lemma_advance_kept(begun, x1, unit);
        }
    }
}

/// Where a run ends, what [`kept`] says still holds.
proof fn lemma_driven_kept(
    begun: EvaluatorView,
    x: EvaluatorView,
    step: Result<StepView, EvaluationErrorView>,
    unit: spec_fn(RequestView) -> AnswerView,
)
    requires
        kept(begun, x, unit),
        asked_of(x, step),
    ensures
        kept(begun, driven_to(x, step, unit), unit),
    decreases
            x.remaining() + (if step matches Ok(StepView::Ask(_)) {
                1nat
            } else {
                0nat
            }),
{
    if let Ok(StepView::Ask(q)) = step {
        let next = x.accept(unit(q));
        lemma_accept_kept(begun, x, q, unit);
        lemma_accept_progress(x, unit(q));
        lemma_driven_kept(begun, next.0, next.1, unit);
    }
}

/// Two states that agree run alike to the end: with the same answers they
/// come to the same answer.
pub proof fn lemma_driven_agrees(
    s: EvaluatorView,
    t: EvaluatorView,
    step: Result<StepView, EvaluationErrorView>,
    unit: spec_fn(RequestView) -> AnswerView,
)
    requires
        s.ordered(),
        s.agrees_with(t),
    ensures
        driven(s, step, unit) == driven(t, step, unit),
    decreases
            s.remaining() + (if step matches Ok(StepView::Ask(_)) {
                1nat
            } else {
                0nat
            }),
{
    if let Ok(StepView::Ask(q)) = step {
        lemma_accept_agrees(s, t, unit(q));
        lemma_accept_progress(s, unit(q));
        lemma_accept_progress(t, unit(q));
        let next = s.accept(unit(q));
        lemma_accept_same_program(s, unit(q));
        lemma_evaluation_keeps_order(s, next.0);
        lemma_driven_agrees(next.0, t.accept(unit(q)).0, next.1, unit);
    }
}

/// A run that begins with literals which `unit` converts goes as the run
/// that begins with these literals converted.
proof fn lemma_converted_ahead(
    s: EvaluatorView,
    k: int,
    unit: spec_fn(RequestView) -> AnswerView,
)
    requires
        !s.waiting,
        0 <= k <= s.literals.len(),
        forall|j: int|
            k <= j < s.literals.len() ==> converted(unit, (#[trigger] s.literals[j]).1) is Some,
    ensures
        ({
            let t = EvaluatorView {
                values: converted_from(s.values, s.literals, k, unit),
                literals: s.literals.take(k),
                ..s
            };
            driven(s.advance().0, s.advance().1, unit) == driven(
                t.advance().0,
                t.advance().1,
                unit,
            )
        }),
    decreases s.literals.len() - k,
{
    let t = EvaluatorView {
        values: converted_from(s.values, s.literals, k, unit),
        literals: s.literals.take(k),
        ..s
    };
    if k == s.literals.len() {
        assert(s.literals.take(k) =~= s.literals);
        assert(t == s);
    } else {
        let text = s.literals.last().1;
        let q = RequestView::Literal(text);
        let v = converted(unit, text)->Some_0;
        let sw = EvaluatorView { waiting: true, ..s };
        let s1 = EvaluatorView {
            values: s.values.insert(s.literals.last().0, v),
            literals: s.literals.drop_last(),
            ..s
        };
        assert(converted(unit, s.literals[s.literals.len() - 1].1) is Some);
        lemma_accept_progress(sw, unit(q));
        assert(s.advance() == (sw, Ok::<StepView, EvaluationErrorView>(StepView::Ask(q))));
        assert(sw.accept(unit(q)) == s1.advance());
        assert(driven(sw, s.advance().1, unit) == driven(s1.advance().0, s1.advance().1, unit));
        assert forall|j: int| k <= j < s1.literals.len() implies converted(
            unit,
            (#[trigger] s1.literals[j]).1,
        ) is Some by {
            assert(s1.literals[j] == s.literals[j]);
        }
        lemma_converted_ahead(s1, k, unit);
        lemma_converted_last_first(s.values, s.literals, k, unit);
        assert(s1.literals.take(k) =~= s.literals.take(k));
    }
}

/// A second run equals the first. When a program has been run on some
/// inputs, with the arithmetic of `unit`, and is run on the same inputs with
/// the same arithmetic again, the second run comes to the answer of the
/// first: the same value, or the same error. This holds in whatever state the
/// first run began, if only the ids are in order and no literal stands under
/// the id of an input; and both of these hold again when the first run has
/// ended, so every later run equals the first.
pub proof fn lemma_second_run_equals_first(
    s: EvaluatorView,
    inputs: Seq<(Seq<char>, ValueView)>,
    unit: spec_fn(RequestView) -> AnswerView,
)
    requires
        s.ordered(),
        apart(s),
    ensures
        ({
            let first = s.start(inputs);
            let end = driven_to(first.0, first.1, unit);
            let second = end.start(inputs);
            &&& driven(second.0, second.1, unit) == driven(first.0, first.1, unit)
            &&& end.same_program(s)
            &&& end.ordered()
            &&& apart(end)
        }),
{
    let a = EvaluatorView { values: s.bound(inputs, 0), cursor: s.nodes, waiting: false, ..s };
    let first = s.start(inputs);
    let end = driven_to(first.0, first.1, unit);
    let k = end.literals.len() as int;
    assert(a.literals.take(a.literals.len() as int) =~= a.literals);
    assert(kept(a, a, unit));
    lemma_advance_kept(a, a, unit);
    lemma_driven_kept(a, first.0, first.1, unit);
    assert(kept(a, end, unit));
    lemma_evaluation_keeps_order(s, end);
    lemma_evaluation_keeps_order(s, a);
    assert(apart(end)) by {
        assert forall|i: int, j: int|
            0 <= i < end.literals.len() && 0 <= j < end.aliases.len() implies (
        #[trigger] end.literals[i]).0 != (#[trigger] end.aliases[j]).1 by {
            assert(end.literals[i] == s.literals[i]);
            assert(end.aliases[j] == s.aliases[j]);
        }
    }
    // The first run goes as the run that begins with the literals converted.
    let m = converted_from(a.values, a.literals, k, unit);
    let ak = EvaluatorView { values: m, literals: a.literals.take(k), ..a };
    lemma_converted_ahead(a, k, unit);
    // The second run begins in a state that agrees with that one.
    let b = EvaluatorView { values: end.bound(inputs, 0), cursor: end.nodes, waiting: false, ..end };
    let em = EvaluatorView { values: m, ..end };
    assert(end.same_leaves(em)) by {
        assert forall|id: u16| !end.ops.contains_key(id) implies (
        #[trigger] end.values.contains_key(id) <==> em.values.contains_key(id)) && (
        end.values.contains_key(id) ==> end.values[id] == em.values[id]) by {
            assert(alike_at(end.values, m, id));
        }
    }
    lemma_bound_agrees(end, em, inputs, 0);
    let bm = em.bound(inputs, 0);
    assert forall|id: u16| #[trigger] alike_at(bm, m, id) by {
        lemma_bound_is(em, inputs, 0, id);
        lemma_bound_is(s, inputs, 0, id);
        if binding(s.aliases, inputs, id, 0) is Some {
            let j = choose|j: int| 0 <= j < s.aliases.len() && (#[trigger] s.aliases[j]).1 == id;
            assert forall|i: int| k <= i < a.literals.len() implies (#[trigger] a.literals[i]).0
                != id by {
                assert(s.literals[i].0 != s.aliases[j].1);
            }
            lemma_converted_elsewhere(a.values, a.literals, k, unit, id);
        }
    }
    assert(ak.agrees_with(b)) by {
        assert(ak.literals == b.literals);
        assert forall|id: u16| !ak.ops.contains_key(id) || id >= ak.cursor implies (
        #[trigger] ak.values.contains_key(id) <==> b.values.contains_key(id)) && (
        ak.values.contains_key(id) ==> ak.values[id] == b.values[id]) by {
            if ak.ops.contains_key(id) {
                assert((id as nat) < s.nodes);
            } else {
                assert(alike_at(bm, m, id));
                let eb = EvaluatorView { values: end.bound(inputs, 0), ..end };
                let emb = EvaluatorView { values: bm, ..em };
                assert(eb.same_leaves(emb));
                assert(eb.values.contains_key(id) <==> emb.values.contains_key(id));
            }
        }
    }
    lemma_evaluation_keeps_order(s, ak);
    lemma_advance_agrees(ak, b);
    lemma_run_same_program(ak);
    lemma_evaluation_keeps_order(s, ak.advance().0);
    lemma_driven_agrees(ak.advance().0, b.advance().0, ak.advance().1, unit);
}

/// In the program of any expression that compiles, the ids are in order and
/// no literal stands under the id of an input: so of such a program every
/// run on the same inputs, with the same arithmetic, comes to the same answer.
pub proof fn lemma_compiled_apart(src: Seq<char>, vars: Seq<Seq<char>>)
    ensures
        compile(src, vars) matches Ok(s) ==> s.ordered() && apart(s),
{
    if let Ok(tree) = tree_of(src, vars) {
        lemma_flatten_laid(tree);
        if let Some(s) = EvaluatorView::flatten(tree) {
            assert forall|i: int, j: int|
                0 <= i < s.literals.len() && 0 <= j < s.aliases.len() implies (
            #[trigger] s.literals[i]).0 != (#[trigger] s.aliases[j]).1 by {
                if s.literals[i].0 == s.aliases[j].1 {
                    lemma_pending_found(s.literals, s.aliases[j].1, 0, i);
                }
            }
        }
    }
}

/// The program of an expression that compiles, run a second time on the
/// same inputs with the same arithmetic, comes to the answer of its first
/// run: the same value, or the same error.
pub proof fn lemma_compiled_runs_repeat(
    src: Seq<char>,
    vars: Seq<Seq<char>>,
    inputs: Seq<(Seq<char>, ValueView)>,
    unit: spec_fn(RequestView) -> AnswerView,
)
    ensures
        compile(src, vars) matches Ok(s) ==> ({
            let first = s.start(inputs);
            let second = driven_to(first.0, first.1, unit).start(inputs);
            driven(second.0, second.1, unit) == driven(first.0, first.1, unit)
        }),
{
    if let Ok(s) = compile(src, vars) {
        lemma_compiled_apart(src, vars);
        lemma_second_run_equals_first(s, inputs, unit);
    }
}

/// A literal that stands under an id awaits conversion there.
proof fn lemma_pending_found(literals: Seq<(u16, Seq<char>)>, id: u16, from: int, i: int)
    requires
        0 <= from <= i < literals.len(),
        literals[i].0 == id,
    ensures
        pending_literal(literals, id, from) is Some,
    decreases i - from,
{
    if from < i && literals[from].0 != id {
        lemma_pending_found(literals, id, from + 1, i);
    }
}

} // verus!
