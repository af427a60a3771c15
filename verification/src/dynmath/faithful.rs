//! The program of a tree means what the tree means.
//!
//! The value of a tree is the value of its operator on the values of its
//! operands, down to the leaves. Flattening lays a tree out in tables under
//! ids, with one slot for each input however often it is used; that the
//! program means under the root what the tree means is proved here.

use vstd::prelude::*;
use crate::dynmath::eval::{lookup, lookup_from, EvaluandView, EvaluatorView};
use crate::dynmath::eval::{compile, field_of, needed};
use crate::dynmath::meaning::driven;
use crate::parser::tree_of;
use crate::dynmath::meaning::{
    all_of, converted, leaf_value, node_value, operand_values, pending_literal, token_value,
};
use crate::dynmath::order::{
    input_name, lemma_child_slot_ordered, lemma_grown_twice, lemma_lookup_stays, lemma_slots_stay,
};
use crate::dynmath::{AnswerView, RequestView, ValueView};
use crate::parser::BranchView;
use crate::tokenizer::token::TokenView;

verus! {

/// The name behind the dot, where the operands are those of a field access:
/// the name that the second operand is.
pub open spec fn field_name(children: Seq<BranchView>) -> Seq<char> {
    if children.len() == 2 {
        match input_name(children[1]) {
            Some(name) => name,
            None => Seq::empty(),
        }
    } else {
        Seq::empty()
    }
}

/// The values of the operands of an operator, as far as the operator looks at
/// them: for a field access only the first.
pub open spec fn tree_operand_values(
    op: TokenView,
    children: Seq<BranchView>,
    env: spec_fn(Seq<char>) -> Option<ValueView>,
    unit: spec_fn(RequestView) -> AnswerView,
) -> Seq<Option<ValueView>>
    decreases children, 0nat,
{
    let n: nat = if op is Dot && children.len() == 2 {
        1
    } else {
        children.len()
    };
    Seq::new(
        n,
        |k: int|
            if 0 <= k < children.len() {
                tree_value(children[k], env, unit)
            } else {
                None
            },
    )
}

/// The value of a tree, where the inputs have the values that `env` gives
/// them and the arithmetic is that of `unit`: a number has the value that
/// `unit` makes of its text, a constant its own, an input the one of `env`, and
/// an operator the value of the operation on the values of its operands. There
/// is none where an operand has none, or the operation is an error.
pub open spec fn tree_value(
    tree: BranchView,
    env: spec_fn(Seq<char>) -> Option<ValueView>,
    unit: spec_fn(RequestView) -> AnswerView,
) -> Option<ValueView>
    decreases tree, 1nat,
{
    match tree {
        BranchView::Atom(tc) => match tc.token {
            TokenView::Number(text) => converted(unit, text),
            TokenView::Const(c) => Some(ValueView::Number(c.bits())),
            TokenView::Var(name) => env(name),
            _ => None,
        },
        BranchView::Expression(tc, children) => {
            let found = tree_operand_values(tc.token, children, env, unit);
            if forall|k: int| 0 <= k < found.len() ==> (#[trigger] found[k]) is Some {
                token_value(tc.token, all_of(found), field_name(children), unit)
            } else {
                None
            }
        },
    }
}

/// Whether nothing is under an id yet: no operation, no name, no literal and
/// no value.
pub open spec fn unfilled(s: EvaluatorView, id: u16) -> bool {
    &&& !s.ops.contains_key(id)
    &&& !s.is_input_slot(id)
    &&& pending_literal(s.literals, id, 0) is None
    &&& !s.values.contains_key(id)
}

/// Whether the tables of two states hold the same under an id.
pub open spec fn same_at(s: EvaluatorView, t: EvaluatorView, x: u16) -> bool {
    &&& s.ops.contains_key(x) <==> t.ops.contains_key(x)
    &&& s.ops.contains_key(x) ==> s.ops[x] == t.ops[x]
    &&& s.values.contains_key(x) <==> t.values.contains_key(x)
    &&& s.values.contains_key(x) ==> s.values[x] == t.values[x]
    &&& pending_literal(s.literals, x, 0) == pending_literal(t.literals, x, 0)
}

/// Whether a tree is laid out under an id: a leaf as what it is, an input
/// under the id of its name, and an operator as an operation whose operands
/// are laid out under its operand ids. `lo` and `hi` bound the ids that the
/// layout uses below the id itself, but for the slots of inputs.
pub open spec fn represents(
    s: EvaluatorView,
    tree: BranchView,
    id: u16,
    lo: nat,
    hi: nat,
) -> bool
    decreases tree,
{
    match tree {
        BranchView::Atom(tc) => match tc.token {
            TokenView::Var(name) => lookup(s.aliases, name) == Some(id),
            TokenView::Number(text) => !s.ops.contains_key(id) && !s.is_input_slot(id)
                && pending_literal(s.literals, id, 0) == Some(text),
            TokenView::Const(c) => !s.ops.contains_key(id) && !s.is_input_slot(id)
                && pending_literal(s.literals, id, 0) is None && s.values.contains_key(id)
                && s.values[id] == ValueView::Number(c.bits()),
            _ => unfilled(s, id),
        },
        BranchView::Expression(tc, children) => {
            &&& s.ops.contains_key(id)
            &&& !s.is_input_slot(id)
            &&& s.ops[id].op == tc
            &&& s.ops[id].args.len() == children.len()
            &&& forall|k: int|
                0 <= k < children.len() ==> (input_name(children[k]) is None ==> lo <= (
                #[trigger] s.ops[id].args[k]) < hi) && represents(
                    s,
                    children[k],
                    s.ops[id].args[k],
                    lo,
                    hi,
                )
        },
    }
}

/// What holds of a program while a tree is flattened, besides the order of
/// its ids: every id under which there is a value or a literal is in use; the
/// ids of the inputs rise in the order of their names; and no input's slot
/// holds a literal.
pub open spec fn laid(s: EvaluatorView) -> bool {
    &&& s.ordered()
    &&& forall|x: u16| #[trigger] s.values.contains_key(x) ==> (x as nat) < s.nodes
    &&& forall|j: int| 0 <= j < s.literals.len() ==> ((#[trigger] s.literals[j]).0 as nat) < s.nodes
    &&& forall|i: int, j: int|
        0 <= i < j < s.aliases.len() ==> (#[trigger] s.aliases[i]).1 < (#[trigger] s.aliases[j]).1
    &&& forall|j: int|
        0 <= j < s.aliases.len() ==> pending_literal(s.literals, (#[trigger] s.aliases[j]).1, 0)
            is None
}

proof fn lemma_lookup_pushed(a: Seq<(Seq<char>, u16)>, name: Seq<char>, id: u16, from: int)
    requires
        0 <= from <= a.len(),
        lookup_from(a, name, from) is None,
    ensures
        lookup_from(a.push((name, id)), name, from) == Some(id),
    decreases a.len() - from,
{
    let b = a.push((name, id));
    if from < a.len() {
        assert(b[from] == a[from]);
        lemma_lookup_pushed(a, name, id, from + 1);
    } else {
        assert(b[from] == (name, id));
    }
}

proof fn lemma_pending_absent(literals: Seq<(u16, Seq<char>)>, id: u16, from: int)
    requires
        0 <= from,
        forall|j: int| from <= j < literals.len() ==> (#[trigger] literals[j]).0 != id,
    ensures
        pending_literal(literals, id, from) is None,
    decreases literals.len() - from,
{
    if from < literals.len() {
        lemma_pending_absent(literals, id, from + 1);
    }
}

proof fn lemma_pending_pushed(
    literals: Seq<(u16, Seq<char>)>,
    id: u16,
    text: Seq<char>,
    x: u16,
    from: int,
)
    requires
        0 <= from <= literals.len(),
    ensures
        x != id ==> pending_literal(literals.push((id, text)), x, from) == pending_literal(
            literals,
            x,
            from,
        ),
        pending_literal(literals, id, from) is None ==> pending_literal(
            literals.push((id, text)),
            id,
            from,
        ) == Some(text),
    decreases literals.len() - from,
{
    let more = literals.push((id, text));
    if from < literals.len() {
        assert(more[from] == literals[from]);
        lemma_pending_pushed(literals, id, text, x, from + 1);
    } else {
        assert(more[from] == (id, text));
        assert(pending_literal(more, x, from + 1) is None);
    }
}

/// Nothing is yet under an id that is not in use.
proof fn lemma_new_id_unfilled(s: EvaluatorView, id: u16)
    requires
        laid(s),
        id >= s.nodes,
    ensures
        unfilled(s, id),
{
    lemma_pending_absent(s.literals, id, 0);
    if s.is_input_slot(id) {
        let j = choose|j: int| 0 <= j < s.aliases.len() && (#[trigger] s.aliases[j]).1 == id;
    }
}

/// Taking an id for an operand keeps the tables as they are, and what holds
/// while a tree is flattened: an input has the id that its name stands for;
/// any other operand has an id under which nothing is yet.
proof fn lemma_child_slot_laid(s: EvaluatorView, child: BranchView)
    requires
        laid(s),
    ensures
        s.child_slot(child) matches Some((id, t)) ==> {
            &&& laid(t)
            &&& t.grown_from(s)
            &&& t.ops == s.ops
            &&& t.values == s.values
            &&& t.literals == s.literals
            &&& (id as nat) < t.nodes
            &&& (input_name(child) matches Some(name) ==> lookup(t.aliases, name) == Some(id))
            &&& (input_name(child) is None ==> id == s.nodes && unfilled(t, id))
        },
{
    lemma_child_slot_ordered(s, child);
    match s.child_slot(child) {
        Some((id, t)) => {
            match input_name(child) {
                Some(name) => {
                    if lookup(s.aliases, name) is None {
                        lemma_lookup_pushed(s.aliases, name, id, 0);
                        lemma_pending_absent(s.literals, id, 0);
                        assert forall|i: int, j: int| 0 <= i < j < t.aliases.len() implies (
                        #[trigger] t.aliases[i]).1 < (#[trigger] t.aliases[j]).1 by {
                            assert(t.aliases[i] == s.aliases[i]);
                            if j < s.aliases.len() {
                                assert(t.aliases[j] == s.aliases[j]);
                            }
                        }
                        assert forall|j: int| 0 <= j < t.aliases.len() implies pending_literal(
                            t.literals,
                            (#[trigger] t.aliases[j]).1,
                            0,
                        ) is None by {
                            if j < s.aliases.len() {
                                assert(t.aliases[j] == s.aliases[j]);
                            }
                        }
                    }
                },
                None => {
                    lemma_new_id_unfilled(s, id);
                },
            }
        },
        None => {},
    }
}

/// What holds of the ids `ids` taken for the first operands: each is in use;
/// that of an input is the one its name stands for; under any other nothing is
/// yet, it is new since the number of ids was `base`, and higher than those
/// taken before it.
pub open spec fn slots_taken(
    s: EvaluatorView,
    children: Seq<BranchView>,
    ids: Seq<u16>,
    base: nat,
) -> bool {
    &&& ids.len() <= children.len()
    &&& forall|k: int|
        0 <= k < ids.len() ==> {
            &&& ((#[trigger] ids[k]) as nat) < s.nodes
            &&& (input_name(children[k]) matches Some(name) ==> lookup(s.aliases, name) == Some(
                ids[k],
            ))
            &&& (input_name(children[k]) is None ==> ids[k] >= base && unfilled(s, ids[k]))
        }
    &&& forall|j: int, k: int|
        0 <= j < k < ids.len() && input_name(children[j]) is None && input_name(children[k])
            is None ==> (#[trigger] ids[j]) < (#[trigger] ids[k])
}

/// Whether a state has come from another by new ids and new names for new ids
/// alone: the tables are as they were.
pub open spec fn only_grown(t: EvaluatorView, s: EvaluatorView) -> bool {
    &&& t.grown_from(s)
    &&& t.ops == s.ops
    &&& t.values == s.values
    &&& t.literals == s.literals
}

proof fn lemma_unfilled_stays(s: EvaluatorView, t: EvaluatorView, id: u16)
    requires
        unfilled(s, id),
        (id as nat) < s.nodes,
        t.grown_from(s),
        same_at(s, t, id),
    ensures
        unfilled(t, id),
{
    lemma_slots_stay(s, t, id);
}

proof fn lemma_slots_taken_stay(
    s: EvaluatorView,
    t: EvaluatorView,
    children: Seq<BranchView>,
    ids: Seq<u16>,
    base: nat,
)
    requires
        slots_taken(s, children, ids, base),
        only_grown(t, s),
    ensures
        slots_taken(t, children, ids, base),
{
    assert forall|k: int| 0 <= k < ids.len() implies {
        &&& ((#[trigger] ids[k]) as nat) < t.nodes
        &&& (input_name(children[k]) matches Some(name) ==> lookup(t.aliases, name) == Some(ids[k]))
        &&& (input_name(children[k]) is None ==> ids[k] >= base && unfilled(t, ids[k]))
    } by {
        assert((ids[k] as nat) < s.nodes);
        match input_name(children[k]) {
            Some(name) => {
                assert(lookup(s.aliases, name) == Some(ids[k]));
                lemma_lookup_stays(s.aliases, t.aliases, name, 0);
            },
            None => {
                lemma_unfilled_stays(s, t, ids[k]);
            },
        }
    }
}

proof fn lemma_child_slots_laid(
    s: EvaluatorView,
    children: Seq<BranchView>,
    from: int,
    done: Seq<u16>,
    base: nat,
)
    requires
        laid(s),
        0 <= from <= children.len(),
        done.len() == from,
        base <= s.nodes,
        slots_taken(s, children, done, base),
    ensures
        s.child_slots(children, from, done) matches Some((ids, t)) ==> {
            &&& laid(t)
            &&& only_grown(t, s)
            &&& ids.len() == children.len()
            &&& slots_taken(t, children, ids, base)
        },
    decreases children.len() - from,
{
    if from < children.len() {
        lemma_child_slot_laid(s, children[from]);
        match s.child_slot(children[from]) {
            Some((id, s1)) => {
                let done1 = done.push(id);
                lemma_slots_taken_stay(s, s1, children, done, base);
                assert(slots_taken(s1, children, done1, base)) by {
                    assert forall|k: int| 0 <= k < done1.len() implies {
                        &&& ((#[trigger] done1[k]) as nat) < s1.nodes
                        &&& (input_name(children[k]) matches Some(name) ==> lookup(
                            s1.aliases,
                            name,
                        ) == Some(done1[k]))
                        &&& (input_name(children[k]) is None ==> done1[k] >= base && unfilled(
                            s1,
                            done1[k],
                        ))
                    } by {
                        if k < done.len() {
                            assert(done1[k] == done[k]);
                        }
                    }
                    assert forall|j: int, k: int|
                        0 <= j < k < done1.len() && input_name(children[j]) is None && input_name(
                            children[k],
                        ) is None implies (#[trigger] done1[j]) < (#[trigger] done1[k]) by {
                        assert(done1[j] == done[j]);
                        if k < done.len() {
                            assert(done1[k] == done[k]);
                        } else {
                            assert((done[j] as nat) < s.nodes);
                        }
                    }
                }
                lemma_child_slots_laid(s1, children, from + 1, done1, base);
                if let Some((ids, t)) = s1.child_slots(children, from + 1, done1) {
                    lemma_grown_twice(s, s1, t);
                }
            },
            None => {},
        }
    }
}

/// A layout that uses ids between two bounds uses ids between wider bounds.
proof fn lemma_represents_wider(
    s: EvaluatorView,
    tree: BranchView,
    id: u16,
    lo: nat,
    hi: nat,
    lower: nat,
    higher: nat,
)
    requires
        represents(s, tree, id, lo, hi),
        lower <= lo,
        hi <= higher,
    ensures
        represents(s, tree, id, lower, higher),
    decreases tree,
{
    match tree {
        BranchView::Atom(_) => {},
        BranchView::Expression(tc, children) => {
            assert forall|k: int| 0 <= k < children.len() implies (input_name(children[k])
                is None ==> lower <= (#[trigger] s.ops[id].args[k]) < higher) && represents(
                s,
                children[k],
                s.ops[id].args[k],
                lower,
                higher,
            ) by {
                lemma_represents_wider(s, children[k], s.ops[id].args[k], lo, hi, lower, higher);
            }
        },
    }
}

/// A layout stays a layout where the tables stay as they are under the ids that
/// it uses, and no name is lost.
proof fn lemma_represents_kept(
    s: EvaluatorView,
    t: EvaluatorView,
    tree: BranchView,
    id: u16,
    lo: nat,
    hi: nat,
)
    requires
        represents(s, tree, id, lo, hi),
        t.grown_from(s),
        hi <= s.nodes,
        input_name(tree) is None ==> (id as nat) < s.nodes && same_at(s, t, id),
        forall|x: u16| lo <= x < hi ==> #[trigger] same_at(s, t, x),
    ensures
        represents(t, tree, id, lo, hi),
    decreases tree,
{
    match tree {
        BranchView::Atom(tc) => {
            match tc.token {
                TokenView::Var(name) => {
                    lemma_lookup_stays(s.aliases, t.aliases, name, 0);
                },
                _ => {
                    lemma_slots_stay(s, t, id);
                },
            }
        },
        BranchView::Expression(tc, children) => {
            lemma_slots_stay(s, t, id);
            assert forall|k: int| 0 <= k < children.len() implies (input_name(children[k])
                is None ==> lo <= (#[trigger] t.ops[id].args[k]) < hi) && represents(
                t,
                children[k],
                t.ops[id].args[k],
                lo,
                hi,
            ) by {
                let c = s.ops[id].args[k];
                assert(represents(s, children[k], c, lo, hi));
                if input_name(children[k]) is None {
                    assert(same_at(s, t, c));
                }
                lemma_represents_kept(s, t, children[k], c, lo, hi);
            }
        },
    }
}

/// Whether an id is one of those that were taken for the operands at and
/// behind `from` that are no inputs, and under which these are to be entered.
pub open spec fn awaited(children: Seq<BranchView>, ids: Seq<u16>, from: int, x: u16) -> bool {
    exists|k: int|
        from <= k < ids.len() && input_name(children[k]) is None && #[trigger] ids[k] == x
}

/// What holds of the ids of the operands at and behind `from` before these
/// are entered.
pub open spec fn slots_await(
    s: EvaluatorView,
    children: Seq<BranchView>,
    ids: Seq<u16>,
    from: int,
) -> bool {
    &&& ids.len() == children.len()
    &&& forall|k: int|
        from <= k < ids.len() ==> {
            &&& ((#[trigger] ids[k]) as nat) < s.nodes
            &&& (input_name(children[k]) matches Some(name) ==> lookup(s.aliases, name) == Some(
                ids[k],
            ))
            &&& (input_name(children[k]) is None ==> unfilled(s, ids[k]))
        }
    &&& forall|j: int, k: int|
        from <= j < k < ids.len() && input_name(children[j]) is None && input_name(children[k])
            is None ==> (#[trigger] ids[j]) < (#[trigger] ids[k])
}

/// Whether entering a tree under `keep` has left the tables as they were
/// under every other id that was in use.
pub open spec fn touched_only(s: EvaluatorView, t: EvaluatorView, keep: u16) -> bool {
    forall|x: u16| x != keep && (x as nat) < s.nodes ==> #[trigger] same_at(s, t, x)
}

/// Whether entering the operands at and behind `from` has left the tables as
/// they were under every id that was in use and awaited none of them.
pub open spec fn touched_awaited(
    s: EvaluatorView,
    t: EvaluatorView,
    children: Seq<BranchView>,
    ids: Seq<u16>,
    from: int,
) -> bool {
    forall|x: u16|
        (x as nat) < s.nodes && !awaited(children, ids, from, x) ==> #[trigger] same_at(s, t, x)
}

/// An operation entered under an id below its new operands keeps what holds
/// while a tree is flattened.
proof fn lemma_operation_entered(
    s: EvaluatorView,
    id: u16,
    e: EvaluandView,
    children: Seq<BranchView>,
    base: nat,
)
    requires
        laid(s),
        (id as nat) < base <= s.nodes,
        !s.is_input_slot(id),
        slots_taken(s, children, e.args, base),
        e.args.len() == children.len(),
    ensures
        laid(EvaluatorView { ops: s.ops.insert(id, e), ..s }),
{
    let t = EvaluatorView { ops: s.ops.insert(id, e), ..s };
    assert forall|p: u16, k: int| t.ops.contains_key(p) && 0 <= k < t.ops[p].args.len() implies {
        let c = #[trigger] t.ops[p].args[k];
        (c as nat) < t.nodes && (c > p || t.is_input_slot(c))
    } by {
        if p == id {
            let c = e.args[k];
            assert((c as nat) < s.nodes);
            match input_name(children[k]) {
                Some(name) => {
                    assert(lookup(s.aliases, name) == Some(c));
                    crate::dynmath::order::lemma_lookup_is_slot(s.aliases, name, 0);
                    assert(s.is_input_slot(c));
                    lemma_slots_stay(s, t, c);
                },
                None => {
                    assert(c >= base);
                },
            }
        } else {
            assert(s.ops.contains_key(p));
            let c = s.ops[p].args[k];
            assert((c as nat) < s.nodes && (c > p || s.is_input_slot(c)));
            lemma_slots_stay(s, t, c);
        }
    }
    assert forall|p: u16| #[trigger] t.ops.contains_key(p) implies (p as nat) < t.nodes by {
        if p != id {
            assert(s.ops.contains_key(p));
        }
    }
    assert forall|j: int| 0 <= j < t.aliases.len() implies !t.ops.contains_key(
        (#[trigger] t.aliases[j]).1,
    ) by {
        assert(!s.ops.contains_key(s.aliases[j].1));
        if t.aliases[j].1 == id {
            assert(s.is_input_slot(id));
        }
    }
}

/// Entering a tree under an id lays the tree out under the id, and touches
/// nothing else that was in use.
proof fn lemma_place_laid(s: EvaluatorView, tree: BranchView, id: u16)
    requires
        laid(s),
        (id as nat) < s.nodes,
        input_name(tree) matches Some(name) ==> lookup(s.aliases, name) == Some(id),
        input_name(tree) is None ==> unfilled(s, id),
    ensures
        s.place(tree, id) matches Some(t) ==> {
            &&& laid(t)
            &&& t.grown_from(s)
            &&& represents(t, tree, id, s.nodes, t.nodes)
            &&& touched_only(s, t, id)
        },
    decreases tree, 0nat,
{
    match tree {
        BranchView::Atom(tc) => {
            let t = s.place(tree, id)->Some_0;
            match tc.token {
                TokenView::Number(text) => {
                    assert forall|x: u16|
                        x != id && (x as nat) < s.nodes implies #[trigger] same_at(s, t, x) by {
                        lemma_pending_pushed(s.literals, id, text, x, 0);
                    }
                    lemma_pending_pushed(s.literals, id, text, id, 0);
                    crate::dynmath::order::lemma_evaluation_keeps_order(s, t);
                    assert forall|j: int| 0 <= j < t.literals.len() implies ((
                    #[trigger] t.literals[j]).0 as nat) < t.nodes by {
                        if j < s.literals.len() {
                            assert(t.literals[j] == s.literals[j]);
                        }
                    }
                    assert forall|j: int| 0 <= j < t.aliases.len() implies pending_literal(
                        t.literals,
                        (#[trigger] t.aliases[j]).1,
                        0,
                    ) is None by {
                        let x = s.aliases[j].1;
                        assert(s.is_input_slot(x));
                        lemma_pending_pushed(s.literals, id, text, x, 0);
                    }
                },
                TokenView::Const(c) => {
                    crate::dynmath::order::lemma_evaluation_keeps_order(s, t);
                    assert forall|x: u16|
                        x != id && (x as nat) < s.nodes implies #[trigger] same_at(s, t, x) by {}
                },
                _ => {
                    assert forall|x: u16|
                        x != id && (x as nat) < s.nodes implies #[trigger] same_at(s, t, x) by {}
                },
            }
        },
        BranchView::Expression(tc, children) => {
            let base = s.nodes;
            assert(slots_taken(s, children, Seq::empty(), base));
            lemma_child_slots_laid(s, children, 0, Seq::empty(), base);
            match s.child_slots(children, 0, Seq::empty()) {
                Some((ids, s1)) => {
                    let e = EvaluandView { op: tc, args: ids };
                    let s2 = EvaluatorView { ops: s1.ops.insert(id, e), ..s1 };
                    lemma_slots_stay(s, s1, id);
                    lemma_operation_entered(s1, id, e, children, base);
                    assert(s2.grown_from(s1));
                    assert(slots_await(s2, children, ids, 0)) by {
                        assert forall|k: int| 0 <= k < ids.len() implies {
                            &&& ((#[trigger] ids[k]) as nat) < s2.nodes
                            &&& (input_name(children[k]) matches Some(name) ==> lookup(
                                s2.aliases,
                                name,
                            ) == Some(ids[k]))
                            &&& (input_name(children[k]) is None ==> unfilled(s2, ids[k]))
                        } by {
                            assert((ids[k] as nat) < s1.nodes);
                            if input_name(children[k]) is None {
                                assert(ids[k] >= base);
                                assert(unfilled(s1, ids[k]));
                                lemma_slots_stay(s1, s2, ids[k]);
                            }
                        }
                    }
                    lemma_place_all_laid(s2, children, ids, 0);
                    match s2.place_all(children, ids, 0) {
                        Some(t) => {
                            lemma_grown_twice(s1, s2, t);
                            lemma_grown_twice(s, s1, t);
                            assert(!awaited(children, ids, 0, id)) by {
                                if awaited(children, ids, 0, id) {
                                    let k = choose|k: int|
                                        0 <= k < ids.len() && input_name(children[k]) is None
                                            && #[trigger] ids[k] == id;
                                    assert(ids[k] >= base);
                                }
                            }
                            assert(same_at(s2, t, id));
                            lemma_slots_stay(s2, t, id);
                            assert forall|k: int| 0 <= k < children.len() implies (input_name(
                                children[k],
                            ) is None ==> s.nodes <= (#[trigger] t.ops[id].args[k]) < t.nodes)
                                && represents(
                                t,
                                children[k],
                                t.ops[id].args[k],
                                s.nodes,
                                t.nodes,
                            ) by {
                                assert(t.ops[id].args[k] == ids[k]);
                                assert((ids[k] as nat) < s1.nodes);
                                assert(represents(t, children[k], ids[k], s2.nodes, t.nodes));
                                lemma_represents_wider(
                                    t,
                                    children[k],
                                    ids[k],
                                    s2.nodes,
                                    t.nodes,
                                    s.nodes,
                                    t.nodes,
                                );
                                if input_name(children[k]) is None {
                                    assert(ids[k] >= base);
                                }
                            }
                            assert forall|x: u16|
                                x != id && (x as nat) < s.nodes implies #[trigger] same_at(
                                s,
                                t,
                                x,
                            ) by {
                                assert(!awaited(children, ids, 0, x)) by {
                                    if awaited(children, ids, 0, x) {
                                        let k = choose|k: int|
                                            0 <= k < ids.len() && input_name(children[k]) is None
                                                && #[trigger] ids[k] == x;
                                        assert(ids[k] >= base);
                                    }
                                }
                                assert(same_at(s2, t, x));
                            }
                        },
                        None => {},
                    }
                },
                None => {},
            }
        },
    }
}

/// Entering the operands at and behind `from`, each under its id, lays each
/// of them out under its id, and touches nothing else that was in use.
proof fn lemma_place_all_laid(
    s: EvaluatorView,
    children: Seq<BranchView>,
    ids: Seq<u16>,
    from: int,
)
    requires
        laid(s),
        0 <= from <= children.len(),
        slots_await(s, children, ids, from),
    ensures
        s.place_all(children, ids, from) matches Some(t) ==> {
            &&& laid(t)
            &&& t.grown_from(s)
            &&& touched_awaited(s, t, children, ids, from)
            &&& forall|k: int|
                from <= k < children.len() ==> represents(
                    t,
                    children[k],
                    #[trigger] ids[k],
                    s.nodes,
                    t.nodes,
                )
        },
    decreases children, children.len() - from,
{
    if from < children.len() {
        let child = children[from];
        let id = ids[from];
        assert((id as nat) < s.nodes);
        lemma_place_laid(s, child, id);
        match s.place(child, id) {
            Some(s1) => {
                assert(slots_await(s1, children, ids, from + 1)) by {
                    assert forall|k: int| from + 1 <= k < ids.len() implies {
                        &&& ((#[trigger] ids[k]) as nat) < s1.nodes
                        &&& (input_name(children[k]) matches Some(name) ==> lookup(
                            s1.aliases,
                            name,
                        ) == Some(ids[k]))
                        &&& (input_name(children[k]) is None ==> unfilled(s1, ids[k]))
                    } by {
                        assert((ids[k] as nat) < s.nodes);
                        match input_name(children[k]) {
                            Some(name) => {
                                assert(lookup(s.aliases, name) == Some(ids[k]));
                                lemma_lookup_stays(s.aliases, s1.aliases, name, 0);
                            },
                            None => {
                                assert(unfilled(s, ids[k]));
                                if input_name(child) is None {
                                    assert(ids[from] < ids[k]);
                                } else {
                                    let name = input_name(child)->Some_0;
                                    assert(lookup(s.aliases, name) == Some(id));
                                    crate::dynmath::order::lemma_lookup_is_slot(s.aliases, name, 0);
                                    assert(s.is_input_slot(id));
                                }
                                assert(same_at(s, s1, ids[k]));
                                lemma_unfilled_stays(s, s1, ids[k]);
                            },
                        }
                    }
                }
                lemma_place_all_laid(s1, children, ids, from + 1);
                match s1.place_all(children, ids, from + 1) {
                    Some(t) => {
                        lemma_grown_twice(s, s1, t);
                        assert forall|x: u16|
                            (x as nat) < s.nodes && !awaited(
                                children,
                                ids,
                                from,
                                x,
                            ) implies #[trigger] same_at(s, t, x) by {
                            if x == id && input_name(child) is None {
                                assert(awaited(children, ids, from, x));
                            }
                            if awaited(children, ids, from + 1, x) {
                                let k = choose|k: int|
                                    from + 1 <= k < ids.len() && input_name(children[k]) is None
                                        && #[trigger] ids[k] == x;
                                assert(awaited(children, ids, from, x));
                            }
                            if x != id {
                                assert(same_at(s, s1, x));
                            } else {
                                let name = input_name(child)->Some_0;
                                assert(s.place(child, id) == Some(s));
                            }
                            assert(same_at(s1, t, x));
                        }
                        assert forall|k: int| from <= k < children.len() implies represents(
                            t,
                            children[k],
                            #[trigger] ids[k],
                            s.nodes,
                            t.nodes,
                        ) by {
                            if k == from {
                                assert(represents(s1, child, id, s.nodes, s1.nodes));
                                assert forall|x: u16|
                                    s.nodes <= x < s1.nodes implies #[trigger] same_at(
                                    s1,
                                    t,
                                    x,
                                ) by {
                                    if awaited(children, ids, from + 1, x) {
                                        let j = choose|j: int|
                                            from + 1 <= j < ids.len() && input_name(children[j])
                                                is None && #[trigger] ids[j] == x;
                                        assert((ids[j] as nat) < s.nodes);
                                    }
                                }
                                if input_name(child) is None {
                                    if awaited(children, ids, from + 1, id) {
                                        let j = choose|j: int|
                                            from + 1 <= j < ids.len() && input_name(children[j])
                                                is None && #[trigger] ids[j] == id;
                                        assert(ids[from] < ids[j]);
                                    }
                                    assert(same_at(s1, t, id));
                                }
                                lemma_represents_kept(s1, t, child, id, s.nodes, s1.nodes);
                                lemma_represents_wider(
                                    t,
                                    child,
                                    id,
                                    s.nodes,
                                    s1.nodes,
                                    s.nodes,
                                    t.nodes,
                                );
                            } else {
                                assert(represents(t, children[k], ids[k], s1.nodes, t.nodes));
                                lemma_represents_wider(
                                    t,
                                    children[k],
                                    ids[k],
                                    s1.nodes,
                                    t.nodes,
                                    s.nodes,
                                    t.nodes,
                                );
                            }
                        }
                    },
                    None => {},
                }
            },
            None => {},
        }
    } else {
        assert forall|x: u16|
            (x as nat) < s.nodes && !awaited(children, ids, from, x) implies #[trigger] same_at(
            s,
            s,
            x,
        ) by {}
    }
}

/// The value that the last of the inputs at and behind `from` with a name
/// gives to the name.
pub open spec fn given(inputs: Seq<(Seq<char>, ValueView)>, name: Seq<char>, from: int) -> Option<
    ValueView,
>
    decreases inputs.len() - from,
{
    if 0 <= from < inputs.len() {
        match given(inputs, name, from + 1) {
            Some(v) => Some(v),
            None => if inputs[from].0 == name {
                Some(inputs[from].1)
            } else {
                None
            },
        }
    } else {
        None
    }
}

/// The values that inputs give to names: to each name the value of the last
/// input that has it, and none to a name that no input has.
pub open spec fn last_given(inputs: Seq<(Seq<char>, ValueView)>) -> spec_fn(Seq<char>) -> Option<
    ValueView,
> {
    |name: Seq<char>| given(inputs, name, 0)
}

/// The values that a state holds for the inputs: for each name the value
/// under its slot.
pub open spec fn inputs_of(s: EvaluatorView) -> spec_fn(Seq<char>) -> Option<ValueView> {
    |name: Seq<char>|
        match lookup(s.aliases, name) {
            Some(id) => if s.values.contains_key(id) {
                Some(s.values[id])
            } else {
                None
            },
            None => None,
        }
}

proof fn lemma_lookup_found(a: Seq<(Seq<char>, u16)>, name: Seq<char>, from: int)
    requires
        0 <= from,
        lookup_from(a, name, from) is Some,
    ensures
        exists|j: int|
            from <= j < a.len() && (#[trigger] a[j]) == (name, lookup_from(a, name, from)->Some_0),
    decreases a.len() - from,
{
    if a[from].0 != name {
        lemma_lookup_found(a, name, from + 1);
    }
}

proof fn lemma_name_found(a: Seq<(Seq<char>, u16)>, id: u16, from: int, j: int)
    requires
        0 <= from <= j < a.len(),
        a[j].1 == id,
        forall|i: int, k: int| 0 <= i < k < a.len() ==> (#[trigger] a[i]).1 < (#[trigger] a[k]).1,
    ensures
        crate::dynmath::eval::name_from(a, id, from) == Some(a[j].0),
    decreases a.len() - from,
{
    if from < j {
        assert(a[from].1 < a[j].1);
        lemma_name_found(a, id, from + 1, j);
    }
}

proof fn lemma_name_absent(a: Seq<(Seq<char>, u16)>, id: u16, from: int)
    requires
        0 <= from,
        forall|j: int| from <= j < a.len() ==> (#[trigger] a[j]).1 != id,
    ensures
        crate::dynmath::eval::name_from(a, id, from) is None,
    decreases a.len() - from,
{
    if from < a.len() {
        lemma_name_absent(a, id, from + 1);
    }
}

/// In a program that is laid out, the name that stands for an id is the one
/// name whose slot the id is; and no name stands for an id that is no slot.
proof fn lemma_slot_names(s: EvaluatorView, id: u16)
    requires
        laid(s),
    ensures
        forall|name: Seq<char>|
            lookup(s.aliases, name) == Some(id) ==> crate::dynmath::eval::slot_name(s.aliases, id)
                == Some(name),
        !s.is_input_slot(id) ==> crate::dynmath::eval::slot_name(s.aliases, id) is None,
        s.is_input_slot(id) ==> pending_literal(s.literals, id, 0) is None && !s.ops.contains_key(
            id,
        ),
{
    assert forall|name: Seq<char>| lookup(s.aliases, name) == Some(id) implies
        crate::dynmath::eval::slot_name(s.aliases, id) == Some(name) by {
        lemma_lookup_found(s.aliases, name, 0);
        let j = choose|j: int| 0 <= j < s.aliases.len() && (#[trigger] s.aliases[j]) == (name, id);
        lemma_name_found(s.aliases, id, 0, j);
    }
    if !s.is_input_slot(id) {
        lemma_name_absent(s.aliases, id, 0);
    } else {
        let j = choose|j: int| 0 <= j < s.aliases.len() && (#[trigger] s.aliases[j]).1 == id;
        assert(!s.ops.contains_key(s.aliases[j].1));
    }
}

proof fn lemma_same_slots(s: EvaluatorView, t: EvaluatorView, id: u16)
    requires
        s.aliases == t.aliases,
    ensures
        s.is_input_slot(id) <==> t.is_input_slot(id),
{
    if s.is_input_slot(id) {
        let j = choose|j: int| 0 <= j < s.aliases.len() && (#[trigger] s.aliases[j]).1 == id;
        assert(t.aliases[j].1 == id);
    }
    if t.is_input_slot(id) {
        let j = choose|j: int| 0 <= j < t.aliases.len() && (#[trigger] t.aliases[j]).1 == id;
        assert(s.aliases[j].1 == id);
    }
}

/// A layout stays a layout where only the values under the slots of the
/// inputs change.
proof fn lemma_represents_bound(
    s: EvaluatorView,
    t: EvaluatorView,
    tree: BranchView,
    id: u16,
    lo: nat,
    hi: nat,
)
    requires
        represents(s, tree, id, lo, hi),
        t == (EvaluatorView { values: t.values, ..s }),
        forall|x: u16| !s.is_input_slot(x) ==> (#[trigger] s.values.contains_key(x)
            <==> t.values.contains_key(x)),
        forall|x: u16| !s.is_input_slot(x) && #[trigger] s.values.contains_key(x) ==> s.values[x]
            == t.values[x],
    ensures
        represents(t, tree, id, lo, hi),
    decreases tree,
{
    match tree {
        BranchView::Atom(tc) => {
            lemma_same_slots(s, t, id);
        },
        BranchView::Expression(tc, children) => {
            lemma_same_slots(s, t, id);
            assert forall|k: int| 0 <= k < children.len() implies (input_name(children[k])
                is None ==> lo <= (#[trigger] t.ops[id].args[k]) < hi) && represents(
                t,
                children[k],
                t.ops[id].args[k],
                lo,
                hi,
            ) by {
                let c = s.ops[id].args[k];
                assert(represents(s, children[k], c, lo, hi));
                lemma_represents_bound(s, t, children[k], c, lo, hi);
            }
        },
    }
}

/// Binding inputs changes values under the slots of inputs only.
proof fn lemma_bound_only_slots(
    s: EvaluatorView,
    inputs: Seq<(Seq<char>, ValueView)>,
    from: int,
    x: u16,
)
    requires
        0 <= from,
        !s.is_input_slot(x),
    ensures
        s.values.contains_key(x) <==> s.bound(inputs, from).contains_key(x),
        s.values.contains_key(x) ==> s.values[x] == s.bound(inputs, from)[x],
    decreases inputs.len() - from,
{
    if from < inputs.len() {
        match lookup(s.aliases, inputs[from].0) {
            Some(id) => {
                crate::dynmath::order::lemma_lookup_is_slot(s.aliases, inputs[from].0, 0);
                let s1 = EvaluatorView { values: s.values.insert(id, inputs[from].1), ..s };
                lemma_same_slots(s, s1, x);
                lemma_bound_only_slots(s1, inputs, from + 1, x);
            },
            None => {
                lemma_bound_only_slots(s, inputs, from + 1, x);
            },
        }
    }
}

/// Binding inputs gives each input's slot the value of the last input that
/// has the name, and leaves the slot as it is if there is no such input.
proof fn lemma_bound_gives(
    s: EvaluatorView,
    inputs: Seq<(Seq<char>, ValueView)>,
    from: int,
    name: Seq<char>,
    id: u16,
)
    requires
        0 <= from,
        laid(s),
        lookup(s.aliases, name) == Some(id),
    ensures
        given(inputs, name, from) matches Some(v) ==> s.bound(inputs, from).contains_key(id)
            && s.bound(inputs, from)[id] == v,
        given(inputs, name, from) is None ==> (s.bound(inputs, from).contains_key(id)
            <==> s.values.contains_key(id)) && (s.values.contains_key(id) ==> s.bound(
            inputs,
            from,
        )[id] == s.values[id]),
    decreases inputs.len() - from,
{
    if from < inputs.len() {
        match lookup(s.aliases, inputs[from].0) {
            Some(at) => {
                let s1 = EvaluatorView { values: s.values.insert(at, inputs[from].1), ..s };
                crate::dynmath::order::lemma_lookup_is_slot(s.aliases, inputs[from].0, 0);
                assert(laid(s1)) by {
                    crate::dynmath::order::lemma_evaluation_keeps_order(s, s1);
                    assert(s1.is_input_slot(at));
                    let j = choose|j: int|
                        0 <= j < s.aliases.len() && (#[trigger] s.aliases[j]).1 == at;
                }
                lemma_bound_gives(s1, inputs, from + 1, name, id);
                if at == id {
                    lemma_slot_names(s, id);
                    assert(inputs[from].0 == name);
                } else {
                    assert(inputs[from].0 != name);
                }
            },
            None => {
                lemma_bound_gives(s, inputs, from + 1, name, id);
            },
        }
    }
}

/// Whether `env` gives each input of a program the value under its slot.
pub open spec fn env_fits(s: EvaluatorView, env: spec_fn(Seq<char>) -> Option<ValueView>) -> bool {
    forall|name: Seq<char>|
        lookup(s.aliases, name) is Some ==> #[trigger] env(name) == inputs_of(s)(name)
}

/// Where a tree is laid out under an id, the program means under the id what
/// the tree means.
proof fn lemma_layout_means(
    s: EvaluatorView,
    tree: BranchView,
    id: u16,
    lo: nat,
    hi: nat,
    env: spec_fn(Seq<char>) -> Option<ValueView>,
    unit: spec_fn(RequestView) -> AnswerView,
)
    requires
        laid(s),
        represents(s, tree, id, lo, hi),
        env_fits(s, env),
    ensures
        node_value(s, unit, id) == tree_value(tree, env, unit),
    decreases tree,
{
    lemma_slot_names(s, id);
    match tree {
        BranchView::Atom(tc) => {
            match tc.token {
                TokenView::Var(name) => {
                    crate::dynmath::order::lemma_lookup_is_slot(s.aliases, name, 0);
                    assert(env(name) == inputs_of(s)(name));
                },
                _ => {},
            }
        },
        BranchView::Expression(tc, children) => {
            let e = s.ops[id];
            let args = needed(e);
            let machine = operand_values(s, unit, id);
            let meant = tree_operand_values(tc.token, children, env, unit);
            assert(machine.len() == meant.len());
            assert forall|k: int| 0 <= k < machine.len() implies machine[k] == meant[k] by {
                let c = e.args[k];
                let child = children[k];
                assert(args[k] == c);
                assert(represents(s, child, c, lo, hi));
                lemma_layout_means(s, child, c, lo, hi, env, unit);
                lemma_slot_names(s, c);
                match child {
                    BranchView::Atom(leaf) => {
                        if let TokenView::Var(name) = leaf.token {
                            crate::dynmath::order::lemma_lookup_is_slot(s.aliases, name, 0);
                        }
                        assert(!s.ops.contains_key(c));
                        assert(node_value(s, unit, c) == leaf_value(s, unit, c));
                    },
                    BranchView::Expression(_, _) => {
                        assert(s.ops.contains_key(c));
                        assert(c > id || s.is_input_slot(c));
                    },
                }
            }
            assert(machine =~= meant);
            if children.len() == 2 {
                let c = e.args[1];
                assert(represents(s, children[1], c, lo, hi));
                lemma_slot_names(s, c);
                match children[1] {
                    BranchView::Atom(leaf) => {
                        if let TokenView::Var(name) = leaf.token {
                        }
                    },
                    BranchView::Expression(_, _) => {},
                }
            }
            assert(field_of(e, s.aliases) == field_name(children));
        },
    }
}

/// The program that a tree is flattened into lays the tree out under the
/// id 0, and holds no value under the slot of an input.
pub proof fn lemma_flatten_laid(tree: BranchView)
    ensures
        EvaluatorView::flatten(tree) matches Some(s) ==> laid(s) && represents(
            s,
            tree,
            0,
            1,
            s.nodes,
        ) && no_value_at_slots(s),
{
    if let Some(s) = EvaluatorView::flatten(tree) {
        let s0 = EvaluatorView::empty().issue()->Some_0.1;
        assert(laid(s0));
        assert(no_value_at_slots(s0));
        assert(!s0.is_input_slot(0));
        match input_name(tree) {
            Some(name) => {
                lemma_lookup_pushed(s0.aliases, name, 0, 0);
                assert(s.aliases.len() == 1);
                assert(s.aliases[0].1 == 0);
                assert(laid(s));
                assert(represents(s, tree, 0, 1, s.nodes));
            },
            None => {
                lemma_pending_absent(s0.literals, 0, 0);
                lemma_place_laid(s0, tree, 0);
                lemma_place_keeps_slots_empty(s0, tree, 0);
            },
        }
    }
}

/// The program of a tree means under its root what the tree means. When the
/// inputs are bound in the program that a tree is flattened into, the value
/// that the program means under the id 0 is the value of the tree, where each
/// input has the value of the last of the inputs with its name, and an input
/// that is not given has none.
pub proof fn lemma_program_means_tree(
    tree: BranchView,
    inputs: Seq<(Seq<char>, ValueView)>,
    unit: spec_fn(RequestView) -> AnswerView,
)
    ensures
        EvaluatorView::flatten(tree) matches Some(s) ==> node_value(
            EvaluatorView { values: s.bound(inputs, 0), ..s },
            unit,
            0,
        ) == tree_value(tree, last_given(inputs), unit),
{
    if let Some(s) = EvaluatorView::flatten(tree) {
        let env = last_given(inputs);
        let b = EvaluatorView { values: s.bound(inputs, 0), ..s };
        lemma_bound_state_laid(tree, inputs);
        lemma_layout_means(b, tree, 0, 1, s.nodes, env, unit);
    }
}

/// A run of a program that is new comes to the value of the tree. If the
/// first run of the program that a tree is flattened into, with every request
/// answered by `unit`, ends with a value, then that is the value of the tree,
/// where each input has the value of the last of the inputs with its name.
pub proof fn lemma_run_means_tree(
    tree: BranchView,
    inputs: Seq<(Seq<char>, ValueView)>,
    unit: spec_fn(RequestView) -> AnswerView,
)
    ensures
        EvaluatorView::flatten(tree) matches Some(s) ==> (driven(
            s.start(inputs).0,
            s.start(inputs).1,
            unit,
        ) matches Ok(v) ==> tree_value(tree, last_given(inputs), unit)
            == Some(v)),
{
    if let Some(s) = EvaluatorView::flatten(tree) {
        lemma_flatten_laid(tree);
        lemma_program_means_tree(tree, inputs, unit);
        crate::dynmath::meaning::lemma_run_means(s, inputs, unit);
    }
}

/// A run of an expression that is newly compiled comes to the value of its
/// tree: if the first run of the program of an expression ends with a value,
/// that is the value of the tree of the expression.
pub proof fn lemma_compiled_run_means_tree(
    src: Seq<char>,
    vars: Seq<Seq<char>>,
    inputs: Seq<(Seq<char>, ValueView)>,
    unit: spec_fn(RequestView) -> AnswerView,
)
    ensures
        compile(src, vars) matches Ok(s) ==> (driven(
            s.start(inputs).0,
            s.start(inputs).1,
            unit,
        ) matches Ok(v) ==> tree_value(
            tree_of(src, vars)->Ok_0,
            last_given(inputs),
            unit,
        ) == Some(v)),
{
    if let Ok(tree) = tree_of(src, vars) {
        lemma_run_means_tree(tree, inputs, unit);
    }
}

/// Whether no value is under the slot of an input.
pub open spec fn no_value_at_slots(s: EvaluatorView) -> bool {
    forall|j: int| 0 <= j < s.aliases.len() ==> !s.values.contains_key((#[trigger] s.aliases[j]).1)
}

proof fn lemma_child_slots_keep_slots_empty(
    s: EvaluatorView,
    children: Seq<BranchView>,
    from: int,
    done: Seq<u16>,
)
    requires
        laid(s),
        no_value_at_slots(s),
        0 <= from,
    ensures
        s.child_slots(children, from, done) matches Some((_, t)) ==> no_value_at_slots(t),
    decreases children.len() - from,
{
    if from < children.len() {
        lemma_child_slot_laid(s, children[from]);
        if let Some((id, s1)) = s.child_slot(children[from]) {
            assert forall|j: int| 0 <= j < s1.aliases.len() implies !s1.values.contains_key(
                (#[trigger] s1.aliases[j]).1,
            ) by {
                if j < s.aliases.len() {
                    assert(s1.aliases[j] == s.aliases[j]);
                }
            }
            lemma_child_slots_keep_slots_empty(s1, children, from + 1, done.push(id));
        }
    }
}

proof fn lemma_place_keeps_slots_empty(s: EvaluatorView, tree: BranchView, id: u16)
    requires
        laid(s),
        no_value_at_slots(s),
        (id as nat) < s.nodes,
        input_name(tree) matches Some(name) ==> lookup(s.aliases, name) == Some(id),
        input_name(tree) is None ==> unfilled(s, id),
    ensures
        s.place(tree, id) matches Some(t) ==> no_value_at_slots(t),
    decreases tree, 0nat,
{
    match tree {
        BranchView::Atom(tc) => {
            if let Some(t) = s.place(tree, id) {
                assert forall|j: int| 0 <= j < t.aliases.len() implies !t.values.contains_key(
                    (#[trigger] t.aliases[j]).1,
                ) by {
                    assert(s.is_input_slot(s.aliases[j].1));
                }
            }
        },
        BranchView::Expression(tc, children) => {
            let base = s.nodes;
            assert(slots_taken(s, children, Seq::empty(), base));
            lemma_child_slots_laid(s, children, 0, Seq::empty(), base);
            lemma_child_slots_keep_slots_empty(s, children, 0, Seq::empty());
            if let Some((ids, s1)) = s.child_slots(children, 0, Seq::empty()) {
                let e = EvaluandView { op: tc, args: ids };
                let s2 = EvaluatorView { ops: s1.ops.insert(id, e), ..s1 };
                lemma_slots_stay(s, s1, id);
                lemma_operation_entered(s1, id, e, children, base);
                assert(slots_await(s2, children, ids, 0)) by {
                    assert forall|k: int| 0 <= k < ids.len() implies {
                        &&& ((#[trigger] ids[k]) as nat) < s2.nodes
                        &&& (input_name(children[k]) matches Some(name) ==> lookup(
                            s2.aliases,
                            name,
                        ) == Some(ids[k]))
                        &&& (input_name(children[k]) is None ==> unfilled(s2, ids[k]))
                    } by {
                        assert((ids[k] as nat) < s1.nodes);
                        if input_name(children[k]) is None {
                            assert(ids[k] >= base);
                            assert(unfilled(s1, ids[k]));
                            lemma_slots_stay(s1, s2, ids[k]);
                        }
                    }
                }
                lemma_place_all_keep_slots_empty(s2, children, ids, 0);
            }
        },
    }
}

proof fn lemma_place_all_keep_slots_empty(
    s: EvaluatorView,
    children: Seq<BranchView>,
    ids: Seq<u16>,
    from: int,
)
    requires
        laid(s),
        no_value_at_slots(s),
        0 <= from <= children.len(),
        slots_await(s, children, ids, from),
    ensures
        s.place_all(children, ids, from) matches Some(t) ==> no_value_at_slots(t),
    decreases children, children.len() - from,
{
    if from < children.len() {
        let child = children[from];
        let id = ids[from];
        assert((id as nat) < s.nodes);
        lemma_place_laid(s, child, id);
        lemma_place_keeps_slots_empty(s, child, id);
        if let Some(s1) = s.place(child, id) {
            lemma_slots_await_stay(s, s1, children, ids, from);
            lemma_place_all_keep_slots_empty(s1, children, ids, from + 1);
        }
    }
}

/// The ids of the operands behind the one that was entered are still as they
/// must be before these are entered.
proof fn lemma_slots_await_stay(
    s: EvaluatorView,
    s1: EvaluatorView,
    children: Seq<BranchView>,
    ids: Seq<u16>,
    from: int,
)
    requires
        laid(s),
        0 <= from < children.len(),
        slots_await(s, children, ids, from),
        s.place(children[from], ids[from]) == Some(s1),
        s1.grown_from(s),
        touched_only(s, s1, ids[from]),
    ensures
        slots_await(s1, children, ids, from + 1),
{
    let child = children[from];
    let id = ids[from];
    assert forall|k: int| from + 1 <= k < ids.len() implies {
        &&& ((#[trigger] ids[k]) as nat) < s1.nodes
        &&& (input_name(children[k]) matches Some(name) ==> lookup(s1.aliases, name) == Some(
            ids[k],
        ))
        &&& (input_name(children[k]) is None ==> unfilled(s1, ids[k]))
    } by {
        assert((ids[k] as nat) < s.nodes);
        match input_name(children[k]) {
            Some(name) => {
                assert(lookup(s.aliases, name) == Some(ids[k]));
                lemma_lookup_stays(s.aliases, s1.aliases, name, 0);
            },
            None => {
                assert(unfilled(s, ids[k]));
                if input_name(child) is None {
                    assert(ids[from] < ids[k]);
                } else {
                    let name = input_name(child)->Some_0;
                    assert(lookup(s.aliases, name) == Some(id));
                    crate::dynmath::order::lemma_lookup_is_slot(s.aliases, name, 0);
                    assert(s.is_input_slot(id));
                }
                assert(same_at(s, s1, ids[k]));
                lemma_unfilled_stays(s, s1, ids[k]);
            },
        }
    }
}

/// Whether an id is that of an operator in the layout of a tree under an id.
pub open spec fn in_layout(s: EvaluatorView, tree: BranchView, id: u16, p: u16) -> bool
    decreases tree, 1nat,
{
    match tree {
        BranchView::Atom(_) => false,
        BranchView::Expression(_, children) => p == id || in_layouts(
            s,
            children,
            s.ops[id].args,
            0,
            p,
        ),
    }
}

/// Whether an id is that of an operator in the layout of one of the trees at
/// and behind `from`, each under its id.
pub open spec fn in_layouts(
    s: EvaluatorView,
    children: Seq<BranchView>,
    ids: Seq<u16>,
    from: int,
    p: u16,
) -> bool
    decreases children, children.len() - from,
{
    if 0 <= from < children.len() {
        in_layout(s, children[from], ids[from], p) || in_layouts(s, children, ids, from + 1, p)
    } else {
        false
    }
}

/// Whether a tree holds a number with a text.
pub open spec fn has_literal(tree: BranchView, text: Seq<char>) -> bool
    decreases tree, 1nat,
{
    match tree {
        BranchView::Atom(tc) => tc.token == TokenView::Number(text),
        BranchView::Expression(_, children) => have_literal(children, 0, text),
    }
}

/// Whether one of the trees at and behind `from` holds a number with a text.
pub open spec fn have_literal(children: Seq<BranchView>, from: int, text: Seq<char>) -> bool
    decreases children, children.len() - from,
{
    if 0 <= from < children.len() {
        has_literal(children[from], text) || have_literal(children, from + 1, text)
    } else {
        false
    }
}

/// An operator of a layout stays one where the layout stays as it is.
proof fn lemma_in_layout_kept(
    s: EvaluatorView,
    t: EvaluatorView,
    tree: BranchView,
    id: u16,
    lo: nat,
    hi: nat,
    p: u16,
)
    requires
        represents(s, tree, id, lo, hi),
        in_layout(s, tree, id, p),
        input_name(tree) is None ==> same_at(s, t, id),
        forall|x: u16| lo <= x < hi ==> #[trigger] same_at(s, t, x),
    ensures
        in_layout(t, tree, id, p),
    decreases tree, 1nat,
{
    match tree {
        BranchView::Atom(_) => {},
        BranchView::Expression(_, children) => {
            if p != id {
                lemma_in_layouts_kept(s, t, tree, id, lo, hi, 0, p);
            }
        },
    }
}

proof fn lemma_in_layouts_kept(
    s: EvaluatorView,
    t: EvaluatorView,
    tree: BranchView,
    id: u16,
    lo: nat,
    hi: nat,
    from: int,
    p: u16,
)
    requires
        tree is Expression,
        represents(s, tree, id, lo, hi),
        0 <= from,
        in_layouts(s, tree->Expression_1, s.ops[id].args, from, p),
        same_at(s, t, id),
        forall|x: u16| lo <= x < hi ==> #[trigger] same_at(s, t, x),
    ensures
        in_layouts(t, tree->Expression_1, t.ops[id].args, from, p),
    decreases tree, 0nat, tree->Expression_1.len() - from,
{
    let children = tree->Expression_1;
    if from < children.len() {
        let c = s.ops[id].args[from];
        assert(represents(s, children[from], c, lo, hi));
        if in_layout(s, children[from], c, p) {
            if input_name(children[from]) is None {
                assert(same_at(s, t, c));
            }
            lemma_in_layout_kept(s, t, children[from], c, lo, hi, p);
        } else {
            lemma_in_layouts_kept(s, t, tree, id, lo, hi, from + 1, p);
        }
    }
}

/// Whether every operation and every literal that a state has more than
/// another belongs to a tree laid out under an id.
pub open spec fn covered(s: EvaluatorView, t: EvaluatorView, tree: BranchView, id: u16) -> bool {
    &&& forall|p: u16|
        #[trigger] t.ops.contains_key(p) ==> s.ops.contains_key(p) || in_layout(t, tree, id, p)
    &&& s.literals.len() <= t.literals.len()
    &&& forall|j: int| 0 <= j < s.literals.len() ==> (#[trigger] t.literals[j]) == s.literals[j]
    &&& forall|j: int|
        s.literals.len() <= j < t.literals.len() ==> has_literal(
            tree,
            (#[trigger] t.literals[j]).1,
        )
}

/// Whether every operation and every literal that a state has more than
/// another belongs to one of the trees at and behind `from`, each laid out
/// under its id.
pub open spec fn covered_all(
    s: EvaluatorView,
    t: EvaluatorView,
    children: Seq<BranchView>,
    ids: Seq<u16>,
    from: int,
) -> bool {
    &&& forall|p: u16|
        #[trigger] t.ops.contains_key(p) ==> s.ops.contains_key(p) || in_layouts(
            t,
            children,
            ids,
            from,
            p,
        )
    &&& s.literals.len() <= t.literals.len()
    &&& forall|j: int| 0 <= j < s.literals.len() ==> (#[trigger] t.literals[j]) == s.literals[j]
    &&& forall|j: int|
        s.literals.len() <= j < t.literals.len() ==> have_literal(
            children,
            from,
            (#[trigger] t.literals[j]).1,
        )
}

/// Entering a tree under an id adds no operation and no literal but those of
/// the tree.
proof fn lemma_place_covers(s: EvaluatorView, tree: BranchView, id: u16)
    requires
        laid(s),
        (id as nat) < s.nodes,
        input_name(tree) matches Some(name) ==> lookup(s.aliases, name) == Some(id),
        input_name(tree) is None ==> unfilled(s, id),
    ensures
        s.place(tree, id) matches Some(t) ==> covered(s, t, tree, id),
    decreases tree, 0nat,
{
    match tree {
        BranchView::Atom(tc) => {},
        BranchView::Expression(tc, children) => {
            let base = s.nodes;
            assert(slots_taken(s, children, Seq::empty(), base));
            lemma_child_slots_laid(s, children, 0, Seq::empty(), base);
            if let Some((ids, s1)) = s.child_slots(children, 0, Seq::empty()) {
                let e = EvaluandView { op: tc, args: ids };
                let s2 = EvaluatorView { ops: s1.ops.insert(id, e), ..s1 };
                lemma_slots_stay(s, s1, id);
                lemma_operation_entered(s1, id, e, children, base);
                assert(slots_await(s2, children, ids, 0)) by {
                    assert forall|k: int| 0 <= k < ids.len() implies {
                        &&& ((#[trigger] ids[k]) as nat) < s2.nodes
                        &&& (input_name(children[k]) matches Some(name) ==> lookup(
                            s2.aliases,
                            name,
                        ) == Some(ids[k]))
                        &&& (input_name(children[k]) is None ==> unfilled(s2, ids[k]))
                    } by {
                        assert((ids[k] as nat) < s1.nodes);
                        if input_name(children[k]) is None {
                            assert(ids[k] >= base);
                            assert(unfilled(s1, ids[k]));
                            lemma_slots_stay(s1, s2, ids[k]);
                        }
                    }
                }
                lemma_place_all_laid(s2, children, ids, 0);
                lemma_place_all_covers(s2, children, ids, 0);
                if let Some(t) = s2.place_all(children, ids, 0) {
                    assert(!awaited(children, ids, 0, id)) by {
                        if awaited(children, ids, 0, id) {
                            let k = choose|k: int|
                                0 <= k < ids.len() && input_name(children[k]) is None
                                    && #[trigger] ids[k] == id;
                            assert(ids[k] >= base);
                        }
                    }
                    assert(same_at(s2, t, id));
                    assert(t.ops[id].args == ids);
                    assert forall|p: u16|
                        #[trigger] t.ops.contains_key(p) implies s.ops.contains_key(p)
                        || in_layout(t, tree, id, p) by {
                        if p != id && !s.ops.contains_key(p) {
                            assert(!s2.ops.contains_key(p));
                            assert(in_layouts(t, children, ids, 0, p));
                        }
                    }
                }
            }
        },
    }
}

/// Entering the operands at and behind `from` adds no operation and no
/// literal but those of these operands.
proof fn lemma_place_all_covers(
    s: EvaluatorView,
    children: Seq<BranchView>,
    ids: Seq<u16>,
    from: int,
)
    requires
        laid(s),
        0 <= from <= children.len(),
        slots_await(s, children, ids, from),
    ensures
        s.place_all(children, ids, from) matches Some(t) ==> covered_all(
            s,
            t,
            children,
            ids,
            from,
        ),
    decreases children, children.len() - from,
{
    if from < children.len() {
        let child = children[from];
        let id = ids[from];
        assert((id as nat) < s.nodes);
        lemma_place_laid(s, child, id);
        lemma_place_covers(s, child, id);
        if let Some(s1) = s.place(child, id) {
            lemma_slots_await_stay(s, s1, children, ids, from);
            lemma_place_all_laid(s1, children, ids, from + 1);
            lemma_place_all_covers(s1, children, ids, from + 1);
            if let Some(t) = s1.place_all(children, ids, from + 1) {
                assert forall|x: u16| s.nodes <= x < s1.nodes implies #[trigger] same_at(
                    s1,
                    t,
                    x,
                ) by {
                    if awaited(children, ids, from + 1, x) {
                        let j = choose|j: int|
                            from + 1 <= j < ids.len() && input_name(children[j]) is None
                                && #[trigger] ids[j] == x;
                        assert((ids[j] as nat) < s.nodes);
                    }
                }
                if input_name(child) is None {
                    if awaited(children, ids, from + 1, id) {
                        let j = choose|j: int|
                            from + 1 <= j < ids.len() && input_name(children[j]) is None
                                && #[trigger] ids[j] == id;
                        assert(ids[from] < ids[j]);
                    }
                    assert(same_at(s1, t, id));
                }
                assert forall|p: u16| #[trigger] t.ops.contains_key(p) implies s.ops.contains_key(
                    p,
                ) || in_layouts(t, children, ids, from, p) by {
                    if s1.ops.contains_key(p) {
                        if !s.ops.contains_key(p) {
                            assert(in_layout(s1, child, id, p));
                            lemma_in_layout_kept(s1, t, child, id, s.nodes, s1.nodes, p);
                        }
                    } else {
                        assert(in_layouts(t, children, ids, from + 1, p));
                    }
                }
                assert forall|j: int| s.literals.len() <= j < t.literals.len() implies have_literal(
                    children,
                    from,
                    (#[trigger] t.literals[j]).1,
                ) by {
                    if j < s1.literals.len() {
                        assert(t.literals[j] == s1.literals[j]);
                        assert(has_literal(child, s1.literals[j].1));
                    } else {
                        assert(have_literal(children, from + 1, t.literals[j].1));
                    }
                }
                assert forall|j: int| 0 <= j < s.literals.len() implies (#[trigger] t.literals[j])
                    == s.literals[j] by {
                    assert(s1.literals[j] == s.literals[j]);
                    assert(t.literals[j] == s1.literals[j]);
                }
            }
        }
    }
}

/// The program that a tree is flattened into has no operation and no literal
/// but those of the tree.
proof fn lemma_flatten_covers(tree: BranchView)
    ensures
        EvaluatorView::flatten(tree) matches Some(s) ==> (forall|p: u16| #[trigger]
            s.ops.contains_key(p) ==> in_layout(s, tree, 0, p)) && (forall|j: int|
            0 <= j < s.literals.len() ==> has_literal(tree, (#[trigger] s.literals[j]).1)),
{
    if let Some(s) = EvaluatorView::flatten(tree) {
        let s0 = EvaluatorView::empty().issue()->Some_0.1;
        assert(laid(s0));
        assert(!s0.is_input_slot(0));
        match input_name(tree) {
            Some(name) => {},
            None => {
                lemma_pending_absent(s0.literals, 0, 0);
                lemma_place_covers(s0, tree, 0);
            },
        }
    }
}

/// A field access has no value.
proof fn lemma_field_access_has_no_value(
    o: Seq<ValueView>,
    field: Seq<char>,
    unit: spec_fn(RequestView) -> AnswerView,
)
    ensures
        token_value(TokenView::Dot, o, field, unit) is None,
{
}

/// Where a tree has a value, every operator in its layout has one.
proof fn lemma_layout_has_values(
    s: EvaluatorView,
    tree: BranchView,
    id: u16,
    lo: nat,
    hi: nat,
    env: spec_fn(Seq<char>) -> Option<ValueView>,
    unit: spec_fn(RequestView) -> AnswerView,
    p: u16,
)
    requires
        laid(s),
        represents(s, tree, id, lo, hi),
        env_fits(s, env),
        tree_value(tree, env, unit) is Some,
        in_layout(s, tree, id, p),
    ensures
        node_value(s, unit, p) is Some,
    decreases tree, 1nat,
{
    match tree {
        BranchView::Atom(_) => {},
        BranchView::Expression(tc, children) => {
            if p == id {
                lemma_layout_means(s, tree, id, lo, hi, env, unit);
            } else {
                lemma_layouts_have_values(s, tree, id, lo, hi, env, unit, 0, p);
            }
        },
    }
}

proof fn lemma_layouts_have_values(
    s: EvaluatorView,
    tree: BranchView,
    id: u16,
    lo: nat,
    hi: nat,
    env: spec_fn(Seq<char>) -> Option<ValueView>,
    unit: spec_fn(RequestView) -> AnswerView,
    from: int,
    p: u16,
)
    requires
        tree is Expression,
        laid(s),
        represents(s, tree, id, lo, hi),
        env_fits(s, env),
        tree_value(tree, env, unit) is Some,
        0 <= from,
        in_layouts(s, tree->Expression_1, s.ops[id].args, from, p),
    ensures
        node_value(s, unit, p) is Some,
    decreases tree, 0nat, tree->Expression_1.len() - from,
{
    let children = tree->Expression_1;
    let tc = tree->Expression_0;
    if from < children.len() {
        let c = s.ops[id].args[from];
        if in_layout(s, children[from], c, p) {
            let found = tree_operand_values(tc.token, children, env, unit);
            if tc.token is Dot {
                lemma_field_access_has_no_value(all_of(found), field_name(children), unit);
            }
            assert(found[from] is Some);
            assert(represents(s, children[from], c, lo, hi));
            lemma_layout_has_values(s, children[from], c, lo, hi, env, unit, p);
        } else {
            lemma_layouts_have_values(s, tree, id, lo, hi, env, unit, from + 1, p);
        }
    }
}

/// Where a tree has a value, `unit` makes a number of every number in it.
proof fn lemma_literal_converts(
    tree: BranchView,
    env: spec_fn(Seq<char>) -> Option<ValueView>,
    unit: spec_fn(RequestView) -> AnswerView,
    text: Seq<char>,
)
    requires
        tree_value(tree, env, unit) is Some,
        has_literal(tree, text),
    ensures
        converted(unit, text) is Some,
    decreases tree, 1nat,
{
    match tree {
        BranchView::Atom(_) => {},
        BranchView::Expression(tc, children) => {
            lemma_literals_convert(tree, env, unit, 0, text);
        },
    }
}

proof fn lemma_literals_convert(
    tree: BranchView,
    env: spec_fn(Seq<char>) -> Option<ValueView>,
    unit: spec_fn(RequestView) -> AnswerView,
    from: int,
    text: Seq<char>,
)
    requires
        tree is Expression,
        tree_value(tree, env, unit) is Some,
        0 <= from,
        have_literal(tree->Expression_1, from, text),
    ensures
        converted(unit, text) is Some,
    decreases tree, 0nat, tree->Expression_1.len() - from,
{
    let children = tree->Expression_1;
    let tc = tree->Expression_0;
    if from < children.len() {
        if has_literal(children[from], text) {
            let found = tree_operand_values(tc.token, children, env, unit);
            if tc.token is Dot {
                lemma_field_access_has_no_value(all_of(found), field_name(children), unit);
            }
            assert(found[from] is Some);
            lemma_literal_converts(children[from], env, unit, text);
        } else {
            lemma_literals_convert(tree, env, unit, from + 1, text);
        }
    }
}

/// What is an operator of a layout in one state is one in any state with the
/// same operations.
proof fn lemma_in_layout_same(
    s: EvaluatorView,
    t: EvaluatorView,
    tree: BranchView,
    id: u16,
    p: u16,
)
    requires
        s.ops == t.ops,
        in_layout(s, tree, id, p),
    ensures
        in_layout(t, tree, id, p),
    decreases tree, 1nat,
{
    match tree {
        BranchView::Atom(_) => {},
        BranchView::Expression(_, children) => {
            if p != id {
                lemma_in_layouts_same(s, t, children, s.ops[id].args, 0, p);
            }
        },
    }
}

proof fn lemma_in_layouts_same(
    s: EvaluatorView,
    t: EvaluatorView,
    children: Seq<BranchView>,
    ids: Seq<u16>,
    from: int,
    p: u16,
)
    requires
        s.ops == t.ops,
        0 <= from,
        in_layouts(s, children, ids, from, p),
    ensures
        in_layouts(t, children, ids, from, p),
    decreases children, children.len() - from,
{
    if from < children.len() {
        if in_layout(s, children[from], ids[from], p) {
            lemma_in_layout_same(s, t, children[from], ids[from], p);
        } else {
            lemma_in_layouts_same(s, t, children, ids, from + 1, p);
        }
    }
}

/// The value of a tree is reached. If a tree has a value, where each input
/// has the value of the last of the inputs with its name, then the first run
/// of the program that the tree is flattened into, with every request answered
/// by `unit`, ends with this value.
pub proof fn lemma_tree_value_is_reached(
    tree: BranchView,
    inputs: Seq<(Seq<char>, ValueView)>,
    unit: spec_fn(RequestView) -> AnswerView,
)
    requires
        tree_value(tree, last_given(inputs), unit) is Some,
    ensures
        EvaluatorView::flatten(tree) matches Some(s) ==> driven(
            s.start(inputs).0,
            s.start(inputs).1,
            unit,
        ) == Ok::<ValueView, crate::dynmath::EvaluationErrorView>(
            tree_value(tree, last_given(inputs), unit)->Some_0,
        ),
{
    if let Some(s) = EvaluatorView::flatten(tree) {
        let env = last_given(inputs);
        lemma_flatten_laid(tree);
        lemma_flatten_covers(tree);
        lemma_program_means_tree(tree, inputs, unit);
        let hi = s.nodes;
        let b = EvaluatorView { values: s.bound(inputs, 0), ..s };
        lemma_bound_state_laid(tree, inputs);
        assert forall|p: u16| #[trigger] b.ops.contains_key(p) implies node_value(b, unit, p)
            is Some by {
            assert(s.ops.contains_key(p));
            lemma_in_layout_same(s, b, tree, 0, p);
            lemma_layout_has_values(b, tree, 0, 1, hi, env, unit, p);
        }
        assert forall|j: int| 0 <= j < s.literals.len() implies converted(
            unit,
            (#[trigger] s.literals[j]).1,
        ) is Some by {
            lemma_literal_converts(tree, env, unit, s.literals[j].1);
        }
        crate::dynmath::meaning::lemma_run_succeeds(s, inputs, unit);
    }
}

/// With the inputs bound, the program that a tree is flattened into still
/// lays the tree out, and the inputs have the values of the last inputs with
/// their names.
proof fn lemma_bound_state_laid(tree: BranchView, inputs: Seq<(Seq<char>, ValueView)>)
    ensures
        EvaluatorView::flatten(tree) matches Some(s) ==> ({
            let b = EvaluatorView { values: s.bound(inputs, 0), ..s };
            &&& laid(b)
            &&& represents(b, tree, 0, 1, s.nodes)
            &&& env_fits(b, last_given(inputs))
        }),
{
    if let Some(s) = EvaluatorView::flatten(tree) {
        let env = last_given(inputs);
        lemma_flatten_laid(tree);
        let hi = s.nodes;
        let b = EvaluatorView { values: s.bound(inputs, 0), ..s };
        assert forall|x: u16| !s.is_input_slot(x) implies (#[trigger] s.values.contains_key(x)
            <==> b.values.contains_key(x)) && (s.values.contains_key(x) ==> s.values[x]
            == b.values[x]) by {
            lemma_bound_only_slots(s, inputs, 0, x);
        }
        lemma_represents_bound(s, b, tree, 0, 1, hi);
        assert(laid(b)) by {
            crate::dynmath::order::lemma_evaluation_keeps_order(s, b);
            assert forall|x: u16| #[trigger] b.values.contains_key(x) implies (x as nat)
                < b.nodes by {
                if s.is_input_slot(x) {
                    let j = choose|j: int|
                        0 <= j < s.aliases.len() && (#[trigger] s.aliases[j]).1 == x;
                } else {
                    lemma_bound_only_slots(s, inputs, 0, x);
                }
            }
        }
        assert forall|name: Seq<char>| lookup(b.aliases, name) is Some implies #[trigger] env(name)
            == inputs_of(b)(name) by {
            let id = lookup(s.aliases, name)->Some_0;
            lemma_bound_gives(s, inputs, 0, name, id);
            lemma_lookup_found(s.aliases, name, 0);
            let j = choose|j: int|
                0 <= j < s.aliases.len() && (#[trigger] s.aliases[j]) == (name, id);
            assert(!s.values.contains_key(s.aliases[j].1));
        }
    }
}

/// The first run of the program of a tree ends with a value exactly where
/// the tree has that value: with every request answered by `unit`, and each
/// input given the value of the last of the inputs with its name.
pub proof fn lemma_first_run_is_tree_value(
    tree: BranchView,
    inputs: Seq<(Seq<char>, ValueView)>,
    unit: spec_fn(RequestView) -> AnswerView,
)
    ensures
        EvaluatorView::flatten(tree) matches Some(s) ==> match tree_value(
            tree,
            last_given(inputs),
            unit,
        ) {
            Some(v) => driven(s.start(inputs).0, s.start(inputs).1, unit) == Ok::<
                ValueView,
                crate::dynmath::EvaluationErrorView,
            >(v),
            None => driven(s.start(inputs).0, s.start(inputs).1, unit) is Err,
        },
{
    lemma_run_means_tree(tree, inputs, unit);
    if tree_value(tree, last_given(inputs), unit) is Some {
        lemma_tree_value_is_reached(tree, inputs, unit);
    }
}

} // verus!
