//! The flattened program and its evaluation.
//!
//! A tree is flattened into tables keyed by node ids. Evaluating walks the
//! operations from the highest id down. Whatever needs arithmetic on numbers
//! is handed out as a [`Request`]; the answer is handed back in, and the walk
//! goes on.

use std::collections::HashMap;
use vstd::prelude::*;
use vstd::string::StringExecFns;
use crate::dynmath::faithful::{last_given, tree_value};
use crate::dynmath::meaning::{driven, driven_to, node_value};
use crate::dynmath::{
    binary_request, index_position, invalid_args_err, invalid_arguments, invalid_binary,
    invalid_unary, map_request, reduce_request, reduction, resolve_index, unimpl_binary,
    unimpl_unary, value_views, Answer, AnswerView, EvaluationError, EvaluationErrorView, Mapping,
    Reduction, Request, RequestView, Value, ValueView,
};
use crate::error::{DymexError, DymexErrorView};
use crate::parser::{
    branch_views, parse_source, tree_of, Branch, BranchView, ParsingError, ParsingErrorView, AST,
};
use crate::text::str_eq;
use crate::tokenizer::lexer::names;
use crate::tokenizer::number::NumberLiteral;
use crate::tokenizer::token::{
    ArithmeticOperator, Function, Token, TokenContext, TokenContextView, TokenView,
};

verus! {

/// Hands out node ids, counting up from 0.
#[derive(Debug)]
pub struct IdGenerator {
    _id: u32,
}

impl IdGenerator {
    /// How many ids have been handed out.
    pub closed spec fn issued(self) -> nat {
        self._id as nat
    }

    #[verifier::type_invariant]
    closed spec fn bounded(self) -> bool {
        self._id <= 0x1_0000
    }

    /// The generator that has handed out no id yet.
    pub fn new() -> (r: Self)
        ensures
            r.issued() == 0,
    {
        Self { _id: 0 }
    }

    /// The next id; none when all ids of 16 bits have been handed out.
    pub fn get_id(&mut self) -> (r: Option<u16>)
        ensures
            old(self).issued() <= 0xffff ==> r == Some(old(self).issued() as u16)
                && final(self).issued() == old(self).issued() + 1,
            old(self).issued() > 0xffff ==> r is None
                && final(self).issued() == old(self).issued(),
    {
        proof {
            use_type_invariant(&*self);
        }
        if self._id <= 0xffff {
            let value = self._id as u16;
            self._id = self._id + 1;
            Some(value)
        } else {
            None
        }
    }

    /// The number of ids handed out.
    pub fn count(&self) -> (r: u32)
        ensures
            r == self.issued(),
            r <= 0x1_0000,
    {
        proof {
            use_type_invariant(self);
        }
        self._id
    }
}

/// The reduction that a function stands for, if it is a reducing one.
pub open spec fn reduction_of(f: Function) -> Option<Reduction> {
    match f {
        Function::Min => Some(Reduction::Min),
        Function::Max => Some(Reduction::Max),
        Function::Avg => Some(Reduction::Avg),
        Function::Std => Some(Reduction::Std),
        Function::Sum => Some(Reduction::Sum),
        Function::Range => Some(Reduction::Range),
        _ => None,
    }
}

/// The mapping that a function stands for, and its name in errors, if it is
/// a function of one argument.
pub open spec fn mapping_of(f: Function) -> Option<(Mapping, Seq<char>)> {
    match f {
        Function::Abs => Some((Mapping::Abs, "abs()"@)),
        Function::Sin => Some((Mapping::Sin, "sin()"@)),
        Function::Cos => Some((Mapping::Cos, "cos()"@)),
        Function::Tan => Some((Mapping::Tan, "tan()"@)),
        Function::Cot => Some((Mapping::Cot, "cot()"@)),
        Function::Exp => Some((Mapping::Exp, "exp()"@)),
        Function::Log => Some((Mapping::Log, "log()"@)),
        Function::Log2 => Some((Mapping::Log2, "log2()"@)),
        Function::Log10 => Some((Mapping::Log10, "log10()"@)),
        Function::Sqrt => Some((Mapping::Sqrt, "sqrt()"@)),
        _ => None,
    }
}

/// What is said of a function of one argument that gets more or none.
pub const ONE_ARG_ERR: &'static str = "takes exactly one argument";

/// What is said of an input that an operation needs and that has no value.
pub const NO_VALUE_ERR: &'static str = "has no value";

/// What is said of an index that points outside the array.
pub const INDEX_RANGE_ERR: &'static str = "index out of range";

/// What is said of an index that is no integer.
pub const INDEX_INTEGER_ERR: &'static str = "index is not an integer";

/// What an operation comes to before any arithmetic: a value that is known
/// already, or a request.
#[derive(Debug, PartialEq)]
pub enum Plan {
    Ready(Value),
    Ask(Request),
}

/// A [`Plan`] as a mathematical value.
pub enum PlanView {
    Ready(ValueView),
    Ask(RequestView),
}

impl View for Plan {
    type V = PlanView;

    open spec fn view(&self) -> PlanView {
        match self {
            Plan::Ready(v) => PlanView::Ready(v@),
            Plan::Ask(q) => PlanView::Ask(q@),
        }
    }
}

/// Whether a plan or an error is what `expected` says.
pub open spec fn plans_as(
    r: Result<Plan, EvaluationError>,
    expected: Result<PlanView, EvaluationErrorView>,
) -> bool {
    match expected {
        Ok(p) => r matches Ok(x) && x@ == p,
        Err(e) => r matches Err(x) && x@ == e,
    }
}

/// A request as a plan.
pub open spec fn asking(q: Result<RequestView, EvaluationErrorView>) -> Result<
    PlanView,
    EvaluationErrorView,
> {
    match q {
        Ok(q) => Ok(PlanView::Ask(q)),
        Err(e) => Err(e),
    }
}

/// What the operation `op` on the operands `o` comes to. A field access has
/// one operand, the value before the dot; `field` is the name behind the dot.
///
/// An arithmetic operator between two operands asks for the operation; before
/// one operand, `+` is the operand itself, if that is a number or an array, and
/// `-` asks for its negation. A function that reduces asks for the reduction of
/// its arguments; any other function takes one argument and asks for the
/// function of its elements. An index into an array by a number asks for the
/// integer that the number is. A field access fails, as no value has fields,
/// and so does every operation that is reserved.
pub open spec fn plan_of(op: TokenView, o: Seq<ValueView>, field: Seq<char>) -> Result<
    PlanView,
    EvaluationErrorView,
> {
    match op {
        TokenView::ArOp(a) => if o.len() == 2 {
            asking(binary_request(a, o[0], o[1]))
        } else if o.len() == 1 {
            match a {
                ArithmeticOperator::Plus => if o[0] is Unique {
                    Err(invalid_unary(a.text(), o[0]))
                } else {
                    Ok(PlanView::Ready(o[0]))
                },
                ArithmeticOperator::Minus | ArithmeticOperator::Negate => asking(
                    map_request(Mapping::Negate, "-"@, o[0]),
                ),
                _ => Err(invalid_unary(a.text(), o[0])),
            }
        } else {
            Err(EvaluationErrorView::Unknown)
        },
        TokenView::Func(f, _) => match (reduction_of(f), mapping_of(f)) {
            (Some(kind), _) => asking(reduce_request(kind, o)),
            (None, Some((mapping, name))) => if o.len() == 1 {
                asking(map_request(mapping, name, o[0]))
            } else {
                Err(invalid_arguments(name, ONE_ARG_ERR@))
            },
            (None, None) => Err(EvaluationErrorView::Unknown),
        },
        TokenView::Dot => if o.len() == 1 {
            Err(EvaluationErrorView::InvalidField { kind_name: o[0].category().name(), field })
        } else {
            Err(EvaluationErrorView::Unknown)
        },
        TokenView::LB => if o.len() == 2 {
            match (o[0], o[1]) {
                (ValueView::Array(_), ValueView::Number(i)) => Ok(
                    PlanView::Ask(RequestView::Integer(i)),
                ),
                _ => Err(invalid_binary(op.text(), o[0], o[1])),
            }
        } else {
            Err(EvaluationErrorView::Unknown)
        },
        TokenView::Colon | TokenView::AssignOp(_) | TokenView::RelOp(_) | TokenView::LogicOp(
            _,
        ) => if o.len() == 2 {
            Err(invalid_binary(op.text(), o[0], o[1]))
        } else {
            Err(EvaluationErrorView::Unknown)
        },
        _ => Err(EvaluationErrorView::Unknown),
    }
}

/// The value of the operation `op` on the operands `o`, once its request is
/// answered by `answer`.
///
/// Numbers for an operation on elements are a number if no operand is an
/// array, else the array of them; there must be as many as were asked for. One
/// number for a reduction is that number. An integer for an index picks the
/// element there, counting from the back if it is negative. Any other answer
/// is an error.
pub open spec fn result_of(
    op: TokenView,
    o: Seq<ValueView>,
    field: Seq<char>,
    answer: AnswerView,
) -> Result<ValueView, EvaluationErrorView> {
    match (plan_of(op, o, field), answer) {
        (Ok(PlanView::Ask(RequestView::Binary { lhs, .. })), AnswerView::Numbers(r)) => if r.len()
            != lhs.len() {
            Err(EvaluationErrorView::Unknown)
        } else if o[0] is Number && o[1] is Number {
            Ok(ValueView::Number(r[0]))
        } else {
            Ok(ValueView::Array(r))
        },
        (Ok(PlanView::Ask(RequestView::Apply { args, .. })), AnswerView::Numbers(r)) => if r.len()
            != args.len() {
            Err(EvaluationErrorView::Unknown)
        } else if o[0] is Number {
            Ok(ValueView::Number(r[0]))
        } else {
            Ok(ValueView::Array(r))
        },
        (Ok(PlanView::Ask(RequestView::Reduce { .. })), AnswerView::Numbers(r)) => if r.len() == 1 {
            Ok(ValueView::Number(r[0]))
        } else {
            Err(EvaluationErrorView::Unknown)
        },
        (Ok(PlanView::Ask(RequestView::Integer(_))), AnswerView::Integer(i)) => {
            let array = o[0]->Array_0;
            match index_position(i, array.len()) {
                Some(p) => Ok(ValueView::Number(array[p as int])),
                None => Err(invalid_arguments(op.text(), INDEX_RANGE_ERR@)),
            }
        },
        (Ok(PlanView::Ask(RequestView::Integer(_))), AnswerView::NoInteger) => Err(
            invalid_arguments(op.text(), INDEX_INTEGER_ERR@),
        ),
        _ => Err(EvaluationErrorView::Unknown),
    }
}

/// The reduction that a function stands for, if it is a reducing one.
pub fn function_reduction(f: Function) -> (r: Option<Reduction>)
    ensures
        r == reduction_of(f),
{
    match f {
        Function::Min => Some(Reduction::Min),
        Function::Max => Some(Reduction::Max),
        Function::Avg => Some(Reduction::Avg),
        Function::Std => Some(Reduction::Std),
        Function::Sum => Some(Reduction::Sum),
        Function::Range => Some(Reduction::Range),
        _ => None,
    }
}

/// The mapping that a function stands for, and its name in errors, if it is
/// a function of one argument.
pub fn function_mapping(f: Function) -> (r: Option<(Mapping, &'static str)>)
    ensures
        match mapping_of(f) {
            Some((mapping, name)) => r matches Some(x) && x.0 == mapping && x.1@ == name,
            None => r is None,
        },
{
    match f {
        Function::Abs => Some((Mapping::Abs, "abs()")),
        Function::Sin => Some((Mapping::Sin, "sin()")),
        Function::Cos => Some((Mapping::Cos, "cos()")),
        Function::Tan => Some((Mapping::Tan, "tan()")),
        Function::Cot => Some((Mapping::Cot, "cot()")),
        Function::Exp => Some((Mapping::Exp, "exp()")),
        Function::Log => Some((Mapping::Log, "log()")),
        Function::Log2 => Some((Mapping::Log2, "log2()")),
        Function::Log10 => Some((Mapping::Log10, "log10()")),
        Function::Sqrt => Some((Mapping::Sqrt, "sqrt()")),
        _ => None,
    }
}

fn ask(q: Result<Request, EvaluationError>) -> (r: Result<Plan, EvaluationError>)
    ensures
        match q {
            Ok(x) => r matches Ok(p) && p@ == PlanView::Ask(x@),
            Err(e) => r matches Err(x) && x@ == e@,
        },
{
    match q {
        Ok(x) => Ok(Plan::Ask(x)),
        Err(e) => Err(e),
    }
}

/// Decides what the operation `op` on the operands comes to.
pub fn decide(op: &Token, operands: &Vec<Value>, field: &str) -> (r: Result<
    Plan,
    EvaluationError,
>)
    ensures
        plans_as(r, plan_of(op@, value_views(operands@), field@)),
{
    let n = operands.len();
    match op {
        Token::ArOp(a) => {
            if n == 2 {
                ask(operands[0].binary(*a, &operands[1]))
            } else if n == 1 {
                match a {
                    ArithmeticOperator::Plus => match &operands[0] {
                        Value::Unique(_) => Err(unimpl_unary(a.to_string().as_str(), &operands[0])),
                        _ => Ok(Plan::Ready(operands[0].clone())),
                    },
                    ArithmeticOperator::Minus | ArithmeticOperator::Negate => ask(
                        operands[0].unary_dispatcher(Mapping::Negate, "-"),
                    ),
                    _ => Err(unimpl_unary(a.to_string().as_str(), &operands[0])),
                }
            } else {
                Err(EvaluationError::Unknown)
            }
        },
        Token::Func(f, _) => {
            match (function_reduction(*f), function_mapping(*f)) {
                (Some(kind), _) => ask(reduction(kind, operands.as_slice())),
                (None, Some((mapping, name))) => {
                    if n == 1 {
                        ask(operands[0].unary_dispatcher(mapping, name))
                    } else {
                        Err(invalid_args_err(name, ONE_ARG_ERR))
                    }
                },
                (None, None) => Err(EvaluationError::Unknown),
            }
        },
        Token::Dot => {
            if n == 1 {
                match operands[0].get_field(field) {
                    Err(e) => Err(e),
                    Ok(v) => Ok(Plan::Ready(v)),
                }
            } else {
                Err(EvaluationError::Unknown)
            }
        },
        Token::LB => {
            if n == 2 {
                match (&operands[0], &operands[1]) {
                    (Value::Array(_), Value::Number(i)) => Ok(Plan::Ask(Request::Integer(*i))),
                    _ => Err(
                        unimpl_binary(op.to_string().as_str(), &operands[0], &operands[1]),
                    ),
                }
            } else {
                Err(EvaluationError::Unknown)
            }
        },
        Token::Colon | Token::AssignOp(_) | Token::RelOp(_) | Token::LogicOp(_) => {
            if n == 2 {
                Err(unimpl_binary(op.to_string().as_str(), &operands[0], &operands[1]))
            } else {
                Err(EvaluationError::Unknown)
            }
        },
        _ => Err(EvaluationError::Unknown),
    }
}

/// Makes the value of the operation `op` on the operands from the answer to
/// its request.
pub fn complete(op: &Token, operands: &Vec<Value>, field: &str, answer: Answer) -> (r: Result<
    Value,
    EvaluationError,
>)
    ensures
        crate::dynmath::values_as(r, result_of(op@, value_views(operands@), field@, answer@)),
{
    let plan = decide(op, operands, field);
    match (plan, answer) {
        (Ok(Plan::Ask(Request::Binary { op: _, lhs, rhs: _ })), Answer::Numbers(r)) => {
            if r.len() != lhs.len() {
                Err(EvaluationError::Unknown)
            } else {
                match (&operands[0], &operands[1]) {
                    (Value::Number(_), Value::Number(_)) => Ok(Value::Number(r[0])),
                    _ => Ok(Value::Array(r)),
                }
            }
        },
        (Ok(Plan::Ask(Request::Apply { func: _, args })), Answer::Numbers(r)) => {
            if r.len() != args.len() {
                Err(EvaluationError::Unknown)
            } else {
                match &operands[0] {
                    Value::Number(_) => Ok(Value::Number(r[0])),
                    _ => Ok(Value::Array(r)),
                }
            }
        },
        (Ok(Plan::Ask(Request::Reduce { kind: _, data: _ })), Answer::Numbers(r)) => {
            if r.len() == 1 {
                Ok(Value::Number(r[0]))
            } else {
                Err(EvaluationError::Unknown)
            }
        },
        (Ok(Plan::Ask(Request::Integer(_))), Answer::Integer(i)) => {
            match &operands[0] {
                Value::Array(v) => {
                    match resolve_index(i, v.len()) {
                        Some(p) => Ok(Value::Number(v[p])),
                        None => Err(invalid_args_err(op.to_string().as_str(), INDEX_RANGE_ERR)),
                    }
                },
                _ => Err(EvaluationError::Unknown),
            }
        },
        (Ok(Plan::Ask(Request::Integer(_))), Answer::NoInteger) => Err(
            invalid_args_err(op.to_string().as_str(), INDEX_INTEGER_ERR),
        ),
        _ => Err(EvaluationError::Unknown),
    }
}

/// An operation of the program: its operator and the ids of its operands.
#[derive(Debug, PartialEq)]
pub struct Evaluand {
    pub op: TokenContext,
    pub args: Vec<u16>,
}

/// An [`Evaluand`] as a mathematical value.
pub struct EvaluandView {
    pub op: TokenContextView,
    pub args: Seq<u16>,
}

impl View for Evaluand {
    type V = EvaluandView;

    open spec fn view(&self) -> EvaluandView {
        EvaluandView { op: self.op@, args: self.args@ }
    }
}

/// The views of the values of a table, key by key.
pub open spec fn table_values(m: Map<u16, Value>) -> Map<u16, ValueView> {
    Map::new(|k: u16| m.contains_key(k), |k: u16| m[k]@)
}

/// The views of the operations of a table, key by key.
pub open spec fn table_ops(m: Map<u16, Evaluand>) -> Map<u16, EvaluandView> {
    Map::new(|k: u16| m.contains_key(k), |k: u16| m[k]@)
}

/// The views of a list of names with their ids.
pub open spec fn alias_views(a: Seq<(String, u16)>) -> Seq<(Seq<char>, u16)> {
    Seq::new(a.len(), |i: int| (a[i].0@, a[i].1))
}

/// The id of the first entry at or behind `from` that has the name.
pub open spec fn lookup_from(a: Seq<(Seq<char>, u16)>, name: Seq<char>, from: int) -> Option<u16>
    decreases a.len() - from,
{
    if 0 <= from < a.len() {
        if a[from].0 == name {
            Some(a[from].1)
        } else {
            lookup_from(a, name, from + 1)
        }
    } else {
        None
    }
}

/// The id that a name stands for, if it stands for one.
pub open spec fn lookup(a: Seq<(Seq<char>, u16)>, name: Seq<char>) -> Option<u16> {
    lookup_from(a, name, 0)
}

/// The name of the first entry at or behind `from` that has the id.
pub open spec fn name_from(a: Seq<(Seq<char>, u16)>, id: u16, from: int) -> Option<Seq<char>>
    decreases a.len() - from,
{
    if 0 <= from < a.len() {
        if a[from].1 == id {
            Some(a[from].0)
        } else {
            name_from(a, id, from + 1)
        }
    } else {
        None
    }
}

/// The name that stands for an id, if one does.
pub open spec fn slot_name(a: Seq<(Seq<char>, u16)>, id: u16) -> Option<Seq<char>> {
    name_from(a, id, 0)
}

/// The first of the ids at and behind `from` that has no value.
pub open spec fn first_missing(values: Map<u16, ValueView>, args: Seq<u16>, from: int) -> Option<
    u16,
>
    decreases args.len() - from,
{
    if 0 <= from < args.len() {
        if values.contains_key(args[from]) {
            first_missing(values, args, from + 1)
        } else {
            Some(args[from])
        }
    } else {
        None
    }
}

/// The values of the operands with the ids `args`.
pub open spec fn operands_of(values: Map<u16, ValueView>, args: Seq<u16>) -> Seq<ValueView> {
    Seq::new(args.len(), |i: int| values[args[i]])
}

/// The error of an operand without a value: if the operand is an input, that
/// the input has no value; else an error without a name.
pub open spec fn missing_operand(aliases: Seq<(Seq<char>, u16)>, id: u16) -> EvaluationErrorView {
    match slot_name(aliases, id) {
        Some(name) => invalid_arguments(name, NO_VALUE_ERR@),
        None => EvaluationErrorView::Unknown,
    }
}

/// The name behind the dot, where the operation is a field access: the name
/// that stands for the id of the second operand.
pub open spec fn field_of(e: EvaluandView, aliases: Seq<(Seq<char>, u16)>) -> Seq<char> {
    if e.args.len() == 2 {
        match slot_name(aliases, e.args[1]) {
            Some(name) => name,
            None => Seq::empty(),
        }
    } else {
        Seq::empty()
    }
}

/// The operands of an operation as they are looked at: for a field access
/// only the first, as the second is the name of the field and has no value.
pub open spec fn needed(e: EvaluandView) -> Seq<u16> {
    if e.op.token is Dot && e.args.len() == 2 {
        e.args.take(1)
    } else {
        e.args
    }
}

/// What an operation of the program comes to, given the values at hand. An
/// operand without a value is an error.
pub open spec fn evaluand_plan(
    e: EvaluandView,
    values: Map<u16, ValueView>,
    aliases: Seq<(Seq<char>, u16)>,
) -> Result<PlanView, EvaluationErrorView> {
    match first_missing(values, needed(e), 0) {
        None => plan_of(e.op.token, operands_of(values, needed(e)), field_of(e, aliases)),
        Some(id) => Err(missing_operand(aliases, id)),
    }
}

/// The value of an operation of the program, once its request is answered.
pub open spec fn evaluand_result(
    e: EvaluandView,
    values: Map<u16, ValueView>,
    aliases: Seq<(Seq<char>, u16)>,
    answer: AnswerView,
) -> Result<ValueView, EvaluationErrorView> {
    match first_missing(values, needed(e), 0) {
        None => result_of(
            e.op.token,
            operands_of(values, needed(e)),
            field_of(e, aliases),
            answer,
        ),
        Some(id) => Err(missing_operand(aliases, id)),
    }
}

/// Finds the id that a name stands for.
pub fn find_alias(aliases: &Vec<(String, u16)>, name: &str) -> (r: Option<u16>)
    ensures
        r == lookup(alias_views(aliases@), name@),
{
    let mut i: usize = 0;
    while i < aliases.len()
        invariant
            i <= aliases.len(),
            lookup(alias_views(aliases@), name@) == lookup_from(
                alias_views(aliases@),
                name@,
                i as int,
            ),
        decreases aliases.len() - i,
    {
        if str_eq(aliases[i].0.as_str(), name) {
            return Some(aliases[i].1);
        }
        i = i + 1;
    }
    None
}

/// Finds the name that stands for an id.
pub fn find_name(aliases: &Vec<(String, u16)>, id: u16) -> (r: Option<String>)
    ensures
        match slot_name(alias_views(aliases@), id) {
            Some(name) => r matches Some(x) && x@ == name,
            None => r is None,
        },
{
    let mut i: usize = 0;
    while i < aliases.len()
        invariant
            i <= aliases.len(),
            slot_name(alias_views(aliases@), id) == name_from(
                alias_views(aliases@),
                id,
                i as int,
            ),
        decreases aliases.len() - i,
    {
        if aliases[i].1 == id {
            return Some(aliases[i].0.clone());
        }
        i = i + 1;
    }
    None
}

/// The error of an operand without a value.
fn missing_error(aliases: &Vec<(String, u16)>, id: u16) -> (r: EvaluationError)
    ensures
        r@ == missing_operand(alias_views(aliases@), id),
{
    match find_name(aliases, id) {
        Some(name) => invalid_args_err(name.as_str(), NO_VALUE_ERR),
        None => EvaluationError::Unknown,
    }
}

impl Evaluand {
    /// How many of the operands are looked at.
    fn needed(&self) -> (r: usize)
        ensures
            r <= self.args@.len(),
            needed(self@) == self.args@.take(r as int),
    {
        match self.op.token {
            Token::Dot => {
                if self.args.len() == 2 {
                    return 1;
                }
            },
            _ => {},
        }
        assert(self.args@.take(self.args@.len() as int) == self.args@);
        self.args.len()
    }

    /// The values of the operands, or the first of them that has none.
    fn operands(&self, values: &HashMap<u16, Value>) -> (r: Result<Vec<Value>, u16>)
        ensures
            match first_missing(table_values(values@), needed(self@), 0) {
                None => r matches Ok(v) && value_views(v@) == operands_of(
                    table_values(values@),
                    needed(self@),
                ),
                Some(id) => r == Err::<Vec<Value>, u16>(id),
            },
    {
        broadcast use vstd::std_specs::hash::group_hash_axioms;

        let n = self.needed();
        let ghost ids = needed(self@);
        let mut found: Vec<Value> = Vec::new();
        let mut i: usize = 0;
        while i < n
            invariant
                i <= n <= self.args@.len(),
                ids == self.args@.take(n as int),
                ids == needed(self@),
                found@.len() == i,
                first_missing(table_values(values@), ids, 0) == first_missing(
                    table_values(values@),
                    ids,
                    i as int,
                ),
                forall|k: int|
                    0 <= k < i ==> (#[trigger] found@[k])@ == table_values(values@)[ids[k]],
            decreases n - i,
        {
            assert(ids[i as int] == self.args@[i as int]);
            match values.get(&self.args[i]) {
                Some(v) => {
                    assert(table_values(values@).contains_key(ids[i as int]));
                    found.push(v.clone());
                },
                None => {
                    assert(!table_values(values@).contains_key(ids[i as int]));
                    return Err(self.args[i]);
                },
            }
            i = i + 1;
        }
        assert(value_views(found@) =~= operands_of(table_values(values@), ids));
        Ok(found)
    }

    /// The name behind the dot, where the operation is a field access.
    fn field(&self, aliases: &Vec<(String, u16)>) -> (r: String)
        ensures
            r@ == field_of(self@, alias_views(aliases@)),
    {
        if self.args.len() == 2 {
            match find_name(aliases, self.args[1]) {
                Some(name) => name,
                None => String::new(),
            }
        } else {
            String::new()
        }
    }

    /// Decides what the operation comes to with the values at hand: a value, a
    /// request for arithmetic, or an error.
    pub fn eval(&self, values: &HashMap<u16, Value>, aliases: &Vec<(String, u16)>) -> (r: Result<
        Plan,
        EvaluationError,
    >)
        ensures
            plans_as(r, evaluand_plan(self@, table_values(values@), alias_views(aliases@))),
    {
        match self.operands(values) {
            Ok(o) => decide(&self.op.token, &o, self.field(aliases).as_str()),
            Err(id) => Err(missing_error(aliases, id)),
        }
    }

    /// Makes the value of the operation from the answer to its request.
    pub fn finish(
        &self,
        values: &HashMap<u16, Value>,
        aliases: &Vec<(String, u16)>,
        answer: Answer,
    ) -> (r: Result<Value, EvaluationError>)
        ensures
            crate::dynmath::values_as(
                r,
                evaluand_result(self@, table_values(values@), alias_views(aliases@), answer@),
            ),
    {
        match self.operands(values) {
            Ok(o) => complete(&self.op.token, &o, self.field(aliases).as_str(), answer),
            Err(id) => Err(missing_error(aliases, id)),
        }
    }
}

/// A compiled expression and the state of its evaluation.
///
/// `expressions` holds the operations and `aliases` the ids of the inputs;
/// neither changes once the expression is compiled. `values` holds what is
/// known: constants, converted literals, inputs and results.
#[derive(Debug)]
pub struct Evaluator {
    values: HashMap<u16, Value>,
    expressions: HashMap<u16, Evaluand>,
    aliases: Vec<(String, u16)>,
    literals: Vec<(u16, NumberLiteral)>,
    ids: IdGenerator,
    at: Option<u16>,
    waiting: bool,
}

/// The program and the state of its evaluation, as mathematical values.
pub struct EvaluatorView {
    /// The values at hand, by id.
    pub values: Map<u16, ValueView>,
    /// The operations, by id.
    pub ops: Map<u16, EvaluandView>,
    /// The input names with their ids, in the order of their first use.
    pub aliases: Seq<(Seq<char>, u16)>,
    /// The literals that are not converted to numbers yet, with their ids.
    pub literals: Seq<(u16, Seq<char>)>,
    /// The number of ids in use: the ids are those below it.
    pub nodes: nat,
    /// The operations with an id at or above it are done in this run.
    pub cursor: nat,
    /// Whether a request is out and its answer awaited.
    pub waiting: bool,
}

/// The views of a list of literals with their ids.
pub open spec fn literal_views(a: Seq<(u16, NumberLiteral)>) -> Seq<(u16, Seq<char>)> {
    Seq::new(a.len(), |i: int| (a[i].0, a[i].1@))
}

impl View for Evaluator {
    type V = EvaluatorView;

    closed spec fn view(&self) -> EvaluatorView {
        EvaluatorView {
            values: table_values(self.values@),
            ops: table_ops(self.expressions@),
            aliases: alias_views(self.aliases@),
            literals: literal_views(self.literals@),
            nodes: self.ids.issued(),
            cursor: match self.at {
                Some(id) => id as nat + 1,
                None => 0,
            },
            waiting: self.waiting,
        }
    }
}

impl EvaluatorView {
    /// The program of no expression.
    pub open spec fn empty() -> EvaluatorView {
        EvaluatorView {
            values: Map::empty(),
            ops: Map::empty(),
            aliases: Seq::empty(),
            literals: Seq::empty(),
            nodes: 0,
            cursor: 0,
            waiting: false,
        }
    }

    /// Takes the next id, if one is left.
    pub open spec fn issue(self) -> Option<(u16, EvaluatorView)> {
        if self.nodes <= 0xffff {
            Some((self.nodes as u16, EvaluatorView { nodes: self.nodes + 1, ..self }))
        } else {
            None
        }
    }

    /// The id for an operand: the id of its name if the operand is an input
    /// whose name has one; else a new id, which an input's name then stands
    /// for.
    pub open spec fn child_slot(self, child: BranchView) -> Option<(u16, EvaluatorView)> {
        match child {
            BranchView::Atom(tc) => match tc.token {
                TokenView::Var(name) => match lookup(self.aliases, name) {
                    Some(id) => Some((id, self)),
                    None => match self.issue() {
                        Some((id, s)) => Some(
                            (id, EvaluatorView { aliases: s.aliases.push((name, id)), ..s }),
                        ),
                        None => None,
                    },
                },
                _ => self.issue(),
            },
            _ => self.issue(),
        }
    }

    /// The ids for the operands at and behind `from`, behind the ids `done` of
    /// those before.
    pub open spec fn child_slots(
        self,
        children: Seq<BranchView>,
        from: int,
        done: Seq<u16>,
    ) -> Option<(Seq<u16>, EvaluatorView)>
        decreases children.len() - from,
    {
        if 0 <= from < children.len() {
            match self.child_slot(children[from]) {
                Some((id, s)) => s.child_slots(children, from + 1, done.push(id)),
                None => None,
            }
        } else {
            Some((done, self))
        }
    }

    /// Enters a tree under the id `id`: a constant as its value, a literal
    /// among the literals, an input's name with the id unless it has one, and
    /// an operator as an operation over the ids of its operands, which are
    /// taken before any operand is entered, and entered in order after that.
    pub open spec fn place(self, tree: BranchView, id: u16) -> Option<EvaluatorView>
        decreases tree, 0nat,
    {
        match tree {
            BranchView::Atom(tc) => match tc.token {
                TokenView::Const(c) => Some(
                    EvaluatorView {
                        values: self.values.insert(id, ValueView::Number(c.bits())),
                        ..self
                    },
                ),
                TokenView::Number(x) => Some(
                    EvaluatorView { literals: self.literals.push((id, x)), ..self },
                ),
                TokenView::Var(name) => if lookup(self.aliases, name) is None {
                    Some(EvaluatorView { aliases: self.aliases.push((name, id)), ..self })
                } else {
                    Some(self)
                },
                _ => Some(self),
            },
            BranchView::Expression(tc, children) => match self.child_slots(
                children,
                0,
                Seq::empty(),
            ) {
                Some((ids, s)) => (EvaluatorView {
                    ops: s.ops.insert(id, EvaluandView { op: tc, args: ids }),
                    ..s
                }).place_all(children, ids, 0),
                None => None,
            },
        }
    }

    /// Enters the operands at and behind `from`, each under its id.
    pub open spec fn place_all(self, children: Seq<BranchView>, ids: Seq<u16>, from: int) -> Option<
        EvaluatorView,
    >
        decreases children, children.len() - from,
    {
        if 0 <= from < children.len() && from < ids.len() {
            match self.place(children[from], ids[from]) {
                Some(s) => s.place_all(children, ids, from + 1),
                None => None,
            }
        } else {
            Some(self)
        }
    }

    /// The program of a tree: the tree entered under the id 0. There is none
    /// if the tree needs more ids than 16 bits give.
    pub open spec fn flatten(tree: BranchView) -> Option<EvaluatorView> {
        match Self::empty().issue() {
            Some((id, s)) => s.place(tree, id),
            None => None,
        }
    }
}

impl Evaluator {
    /// The evaluator of no expression.
    fn empty() -> (r: Self)
        ensures
            r@ == EvaluatorView::empty(),
    {
        broadcast use vstd::std_specs::hash::group_hash_axioms;

        let r = Evaluator {
            values: HashMap::new(),
            expressions: HashMap::new(),
            aliases: Vec::new(),
            literals: Vec::new(),
            ids: IdGenerator::new(),
            at: None,
            waiting: false,
        };
        assert(r@.values =~= Map::empty());
        assert(r@.ops =~= Map::empty());
        assert(r@.aliases =~= Seq::empty());
        assert(r@.literals =~= Seq::empty());
        r
    }

    fn issue(&mut self) -> (r: Option<u16>)
        ensures
            match old(self)@.issue() {
                Some((id, s)) => r == Some(id) && final(self)@ == s,
                None => r is None,
            },
    {
        self.ids.get_id()
    }

    fn set_value(&mut self, id: u16, value: Value)
        ensures
            final(self)@ == (EvaluatorView {
                values: old(self)@.values.insert(id, value@),
                ..old(self)@
            }),
    {
        broadcast use vstd::std_specs::hash::group_hash_axioms;

        self.values.insert(id, value);
        assert(self@.values =~= old(self)@.values.insert(id, value@));
    }

    fn add_alias(&mut self, name: String, id: u16)
        ensures
            final(self)@ == (EvaluatorView {
                aliases: old(self)@.aliases.push((name@, id)),
                ..old(self)@
            }),
    {
        self.aliases.push((name, id));
        assert(self@.aliases =~= old(self)@.aliases.push((name@, id)));
    }

    fn add_literal(&mut self, id: u16, literal: NumberLiteral)
        ensures
            final(self)@ == (EvaluatorView {
                literals: old(self)@.literals.push((id, literal@)),
                ..old(self)@
            }),
    {
        self.literals.push((id, literal));
        assert(self@.literals =~= old(self)@.literals.push((id, literal@)));
    }

    fn set_operation(&mut self, id: u16, operation: Evaluand)
        ensures
            final(self)@ == (EvaluatorView {
                ops: old(self)@.ops.insert(id, operation@),
                ..old(self)@
            }),
    {
        broadcast use vstd::std_specs::hash::group_hash_axioms;

        self.expressions.insert(id, operation);
        assert(self@.ops =~= old(self)@.ops.insert(id, operation@));
    }

    fn child_slot(&mut self, child: &Branch) -> (r: Option<u16>)
        ensures
            match old(self)@.child_slot(child@) {
                Some((id, s)) => r == Some(id) && final(self)@ == s,
                None => r is None,
            },
    {
        match child {
            Branch::Atom(tc) => {
                match &tc.token {
                    Token::Var(name) => {
                        match find_alias(&self.aliases, name.as_str()) {
                            Some(id) => Some(id),
                            None => {
                                match self.issue() {
                                    Some(id) => {
                                        self.add_alias(name.clone(), id);
                                        Some(id)
                                    },
                                    None => None,
                                }
                            },
                        }
                    },
                    _ => self.issue(),
                }
            },
            _ => self.issue(),
        }
    }

    /// Enters a tree under the id `id`; tells whether the ids sufficed.
    fn place(&mut self, tree: &Branch, id: u16) -> (r: bool)
        ensures
            match old(self)@.place(tree@, id) {
                Some(s) => r && final(self)@ == s,
                None => !r,
            },
        decreases tree,
    {
        proof {
            reveal_with_fuel(<Branch as View>::view, 2);
        }
        match tree {
            Branch::Atom(tc) => {
                match &tc.token {
                    Token::Const(c) => {
                        self.set_value(id, Value::Number(c.value()));
                    },
                    Token::Number(x) => {
                        self.add_literal(id, x.clone());
                    },
                    Token::Var(name) => {
                        if find_alias(&self.aliases, name.as_str()).is_none() {
                            self.add_alias(name.clone(), id);
                        }
                    },
                    _ => {},
                }
                true
            },
            Branch::Expression(tc, children) => {
                let ghost operands = branch_views(children@);
                assert(tree@->Expression_1 =~= operands);
                let ghost goal = self@.child_slots(operands, 0, Seq::empty());
                let mut ids: Vec<u16> = Vec::new();
                let mut i: usize = 0;
                while i < children.len()
                    invariant
                        i <= children.len(),
                        operands == branch_views(children@),
                        tree@ == BranchView::Expression(tc@, operands),
                        goal == old(self)@.child_slots(operands, 0, Seq::empty()),
                        goal == self@.child_slots(operands, i as int, ids@),
                    decreases children.len() - i,
                {
                    match self.child_slot(&children[i]) {
                        Some(slot) => {
                            ids.push(slot);
                        },
                        None => {
                            return false;
                        },
                    }
                    i = i + 1;
                }
                self.set_operation(id, Evaluand { op: tc.clone(), args: ids.clone() });
                let ghost goal = self@.place_all(operands, ids@, 0);
                let mut i: usize = 0;
                while i < children.len() && i < ids.len()
                    invariant
                        i <= children.len(),
                        operands == branch_views(children@),
                        goal == old(self)@.place(tree@, id),
                        goal == self@.place_all(operands, ids@, i as int),
                        *tree matches Branch::Expression(_, c) && c == children,
                    decreases children.len() - i,
                {
                    if !self.place(&children[i], ids[i]) {
                        return false;
                    }
                    i = i + 1;
                }
                true
            },
        }
    }
}

/// Flattens the tree of an expression into its program. There is none if the
/// tree needs more ids than 16 bits give. Without a tree the program is empty.
pub fn flatten_tree(ast: AST) -> (r: Option<Evaluator>)
    ensures
        match ast.parsed() {
            Some(tree) => match EvaluatorView::flatten(tree) {
                Some(s) => r matches Some(e) && e@ == s,
                None => r is None,
            },
            None => r matches Some(e) && e@ == EvaluatorView::empty(),
        },
{
    let mut program = Evaluator::empty();
    match ast.take_tree() {
        Some(tree) => {
            match program.issue() {
                Some(id) => {
                    if program.place(&tree, id) {
                        Some(program)
                    } else {
                        None
                    }
                },
                None => None,
            }
        },
        None => Some(program),
    }
}

/// Where an evaluation stands: it asks for arithmetic, or it is done and has
/// the value of the expression.
#[derive(Debug, PartialEq)]
pub enum Step {
    Ask(Request),
    Done(Value),
}

/// A [`Step`] as a mathematical value.
pub enum StepView {
    Ask(RequestView),
    Done(ValueView),
}

impl View for Step {
    type V = StepView;

    open spec fn view(&self) -> StepView {
        match self {
            Step::Ask(q) => StepView::Ask(q@),
            Step::Done(v) => StepView::Done(v@),
        }
    }
}

/// Whether a step or an error is what `expected` says.
pub open spec fn steps_as(
    r: Result<Step, EvaluationError>,
    expected: Result<StepView, EvaluationErrorView>,
) -> bool {
    match expected {
        Ok(p) => r matches Ok(x) && x@ == p,
        Err(e) => r matches Err(x) && x@ == e,
    }
}

/// The views of a list of named values.
pub open spec fn input_views(a: Seq<(String, Value)>) -> Seq<(Seq<char>, ValueView)> {
    Seq::new(a.len(), |i: int| (a[i].0@, a[i].1@))
}

impl EvaluatorView {
    /// The end of a run: the value under the id 0, the root of the tree.
    pub open spec fn finished(self) -> Result<StepView, EvaluationErrorView> {
        if self.values.contains_key(0) {
            Ok(StepView::Done(self.values[0]))
        } else {
            Err(EvaluationErrorView::Unknown)
        }
    }

    /// Walks the operations from the one below the cursor down, as far as no
    /// arithmetic is needed: an operation whose value is known gets it, the
    /// first that needs arithmetic is asked for, the first error ends the walk,
    /// and below the id 0 the run is finished.
    pub open spec fn run(self) -> (EvaluatorView, Result<StepView, EvaluationErrorView>)
        decreases self.cursor,
    {
        if self.cursor == 0 {
            (EvaluatorView { waiting: false, ..self }, self.finished())
        } else {
            let id = (self.cursor - 1) as u16;
            let below = (self.cursor - 1) as nat;
            if !self.ops.contains_key(id) {
                (EvaluatorView { cursor: below, ..self }).run()
            } else {
                match evaluand_plan(self.ops[id], self.values, self.aliases) {
                    Err(e) => (EvaluatorView { waiting: false, ..self }, Err(e)),
                    Ok(PlanView::Ready(v)) => (EvaluatorView {
                        values: self.values.insert(id, v),
                        cursor: below,
                        ..self
                    }).run(),
                    Ok(PlanView::Ask(q)) => (
                        EvaluatorView { waiting: true, ..self },
                        Ok(StepView::Ask(q)),
                    ),
                }
            }
        }
    }

    /// Goes on with the run: a literal that is not converted yet is asked for,
    /// the last first; with none left, the operations are walked.
    pub open spec fn advance(self) -> (EvaluatorView, Result<StepView, EvaluationErrorView>) {
        if self.literals.len() > 0 {
            (
                EvaluatorView { waiting: true, ..self },
                Ok(StepView::Ask(RequestView::Literal(self.literals.last().1))),
            )
        } else {
            self.run()
        }
    }

    /// The values at hand once the inputs at and behind `from` are bound, each
    /// value under the id of its name, a later one over an earlier one. An
    /// input whose name stands for no id is not in the expression, and is
    /// passed over.
    pub open spec fn bound(self, inputs: Seq<(Seq<char>, ValueView)>, from: int) -> Map<
        u16,
        ValueView,
    >
        decreases inputs.len() - from,
    {
        if 0 <= from < inputs.len() {
            match lookup(self.aliases, inputs[from].0) {
                Some(id) => (EvaluatorView {
                    values: self.values.insert(id, inputs[from].1),
                    ..self
                }).bound(inputs, from + 1),
                None => self.bound(inputs, from + 1),
            }
        } else {
            self.values
        }
    }

    /// Begins a run with the inputs: the inputs are bound and the run goes from
    /// the highest id down.
    pub open spec fn start(self, inputs: Seq<(Seq<char>, ValueView)>) -> (
        EvaluatorView,
        Result<StepView, EvaluationErrorView>,
    ) {
        (EvaluatorView {
            values: self.bound(inputs, 0),
            cursor: self.nodes,
            waiting: false,
            ..self
        }).advance()
    }

    /// Takes the answer to the request that is out and goes on with the run.
    /// One number for a literal becomes the value under the literal's id. The
    /// answer for an operation becomes its value as [`evaluand_result`] says.
    /// Without a request out, or with an answer of the wrong kind, it is an
    /// error.
    pub open spec fn accept(self, answer: AnswerView) -> (
        EvaluatorView,
        Result<StepView, EvaluationErrorView>,
    ) {
        let stopped = EvaluatorView { waiting: false, ..self };
        if !self.waiting {
            (stopped, Err(EvaluationErrorView::Unknown))
        } else if self.literals.len() > 0 {
            match answer {
                AnswerView::Numbers(r) => if r.len() == 1 {
                    (EvaluatorView {
                        values: self.values.insert(
                            self.literals.last().0,
                            ValueView::Number(r[0]),
                        ),
                        literals: self.literals.drop_last(),
                        waiting: false,
                        ..self
                    }).advance()
                } else {
                    (stopped, Err(EvaluationErrorView::Unknown))
                },
                _ => (stopped, Err(EvaluationErrorView::Unknown)),
            }
        } else if self.cursor == 0 || !self.ops.contains_key((self.cursor - 1) as u16) {
            (stopped, Err(EvaluationErrorView::Unknown))
        } else {
            let id = (self.cursor - 1) as u16;
            match evaluand_result(self.ops[id], self.values, self.aliases, answer) {
                Ok(v) => (EvaluatorView {
                    values: self.values.insert(id, v),
                    cursor: (self.cursor - 1) as nat,
                    waiting: false,
                    ..self
                }).run(),
                Err(e) => (stopped, Err(e)),
            }
        }
    }

    /// Whether two states belong to the same program: the same operations,
    /// input names and number of ids.
    pub open spec fn same_program(self, other: EvaluatorView) -> bool {
        self.ops == other.ops && self.aliases == other.aliases && self.nodes == other.nodes
    }
}

impl Evaluator {
    /// Moves the cursor from the id `id` to the one below.
    fn step_below(&mut self, id: u16)
        requires
            old(self)@.cursor == id + 1,
        ensures
            final(self)@ == (EvaluatorView { cursor: id as nat, ..old(self)@ }),
    {
        self.at = if id == 0 {
            None
        } else {
            Some((id - 1) as u16)
        };
    }

    /// What the operation under `id` comes to, if there is one.
    fn plan_at(&self, id: u16) -> (r: Option<Result<Plan, EvaluationError>>)
        ensures
            self@.ops.contains_key(id) ==> (r matches Some(p) && plans_as(
                p,
                evaluand_plan(self@.ops[id], self@.values, self@.aliases),
            )),
            !self@.ops.contains_key(id) ==> r is None,
    {
        broadcast use vstd::std_specs::hash::group_hash_axioms;

        match self.expressions.get(&id) {
            Some(e) => Some(e.eval(&self.values, &self.aliases)),
            None => None,
        }
    }

    /// The value of the operation under `id` from the answer to its request,
    /// if there is such an operation.
    fn result_at(&self, id: u16, answer: Answer) -> (r: Option<Result<Value, EvaluationError>>)
        ensures
            self@.ops.contains_key(id) ==> (r matches Some(p) && crate::dynmath::values_as(
                p,
                evaluand_result(self@.ops[id], self@.values, self@.aliases, answer@),
            )),
            !self@.ops.contains_key(id) ==> r is None,
    {
        broadcast use vstd::std_specs::hash::group_hash_axioms;

        match self.expressions.get(&id) {
            Some(e) => Some(e.finish(&self.values, &self.aliases, answer)),
            None => None,
        }
    }

    /// The end of a run.
    fn finish_run(&self) -> (r: Result<Step, EvaluationError>)
        ensures
            steps_as(r, self@.finished()),
    {
        broadcast use vstd::std_specs::hash::group_hash_axioms;

        match self.values.get(&0) {
            Some(v) => Ok(Step::Done(v.clone())),
            None => Err(EvaluationError::Unknown),
        }
    }

    /// Walks the operations from the one below the cursor down.
    fn run(&mut self) -> (r: Result<Step, EvaluationError>)
        ensures
            final(self)@ == old(self)@.run().0,
            steps_as(r, old(self)@.run().1),
            final(self)@.same_program(old(self)@),
    {
        loop
            invariant
                self@.run() == old(self)@.run(),
                self@.same_program(old(self)@),
            decreases self@.cursor,
        {
            let id = match self.at {
                Some(id) => id,
                None => {
                    self.waiting = false;
                    return self.finish_run();
                },
            };
            match self.plan_at(id) {
                None => {
                    self.step_below(id);
                },
                Some(Err(e)) => {
                    self.waiting = false;
                    return Err(e);
                },
                Some(Ok(Plan::Ready(v))) => {
                    self.set_value(id, v);
                    self.step_below(id);
                },
                Some(Ok(Plan::Ask(q))) => {
                    self.waiting = true;
                    return Ok(Step::Ask(q));
                },
            }
        }
    }

    /// Goes on with the run.
    fn advance(&mut self) -> (r: Result<Step, EvaluationError>)
        ensures
            final(self)@ == old(self)@.advance().0,
            steps_as(r, old(self)@.advance().1),
            final(self)@.same_program(old(self)@),
    {
        let n = self.literals.len();
        if n > 0 {
            self.waiting = true;
            let literal = self.literals[n - 1].1.clone();
            Ok(Step::Ask(Request::Literal(literal)))
        } else {
            self.run()
        }
    }

    /// Begins to evaluate the expression with the inputs. Each input is a name
    /// with its value.
    ///
    /// The answer is the first request for arithmetic, the value of the
    /// expression if none is needed, or an error; [`EvaluatorView::start`] says
    /// which. The answer to a request goes to [`Evaluator::resume`]. An input
    /// that the expression does not use is passed over; an input that it uses
    /// and that is not given keeps the value of the run before, and is an error
    /// if it has none. The program itself is never changed: only the values at
    /// hand are.
    pub fn evaluate(&mut self, inputs: &Vec<(String, Value)>) -> (r: Result<
        Step,
        EvaluationError,
    >)
        ensures
            final(self)@ == old(self)@.start(input_views(inputs@)).0,
            steps_as(r, old(self)@.start(input_views(inputs@)).1),
            final(self)@.same_program(old(self)@),
    {
        let ghost goal = self@.bound(input_views(inputs@), 0);
        let mut i: usize = 0;
        while i < inputs.len()
            invariant
                i <= inputs.len(),
                goal == self@.bound(input_views(inputs@), i as int),
                self@ == (EvaluatorView { values: self@.values, ..old(self)@ }),
            decreases inputs.len() - i,
        {
            if let Some(id) = find_alias(&self.aliases, inputs[i].0.as_str()) {
                self.set_value(id, inputs[i].1.clone());
            }
            i = i + 1;
        }
        let nodes = self.ids.count();
        self.at = if nodes == 0 {
            None
        } else {
            Some((nodes - 1) as u16)
        };
        self.waiting = false;
        self.advance()
    }

    /// Takes the answer to the request that is out and goes on evaluating.
    ///
    /// The answer is the next request, the value of the expression, or an
    /// error; [`EvaluatorView::accept`] says which. The program itself is never
    /// changed.
    pub fn resume(&mut self, answer: Answer) -> (r: Result<Step, EvaluationError>)
        ensures
            final(self)@ == old(self)@.accept(answer@).0,
            steps_as(r, old(self)@.accept(answer@).1),
            final(self)@.same_program(old(self)@),
    {
        if !self.waiting {
            return Err(EvaluationError::Unknown);
        }
        self.waiting = false;
        let n = self.literals.len();
        if n > 0 {
            match answer {
                Answer::Numbers(r) => {
                    if r.len() == 1 {
                        let id = self.literals[n - 1].0;
                        let _ = self.literals.pop();
                        assert(self@.literals =~= old(self)@.literals.drop_last());
                        self.set_value(id, Value::Number(r[0]));
                        self.advance()
                    } else {
                        Err(EvaluationError::Unknown)
                    }
                },
                _ => Err(EvaluationError::Unknown),
            }
        } else {
            match self.at {
                None => Err(EvaluationError::Unknown),
                Some(id) => {
                    match self.result_at(id, answer) {
                        None => Err(EvaluationError::Unknown),
                        Some(Err(e)) => Err(e),
                        Some(Ok(v)) => {
                            self.set_value(id, v);
                            self.step_below(id);
                            self.run()
                        },
                    }
                },
            }
        }
    }
}

/// What is said of an expression that needs more ids than there are.
pub const TOO_LARGE_ERR: &'static str = "expressions of more than 65536 nodes";

/// The program of an expression over the inputs `vars`, or the first error:
/// of the scan, of the checks before parsing, of parsing, or of a tree that
/// needs more ids than there are.
pub open spec fn compile(src: Seq<char>, vars: Seq<Seq<char>>) -> Result<
    EvaluatorView,
    DymexErrorView,
> {
    match tree_of(src, vars) {
        Err(e) => Err(e),
        Ok(tree) => match EvaluatorView::flatten(tree) {
            Some(s) => Ok(s),
            None => Err(
                DymexErrorView::ParsingError(ParsingErrorView::NotImplemented(TOO_LARGE_ERR@)),
            ),
        },
    }
}

impl Evaluator {
    /// Compiles an expression over the inputs named by `variables`: scans it,
    /// parses it and flattens the tree. The program is the one that
    /// [`compile`] describes; nothing of it is evaluated yet.
    pub fn new(expression: &str, variables: &[&str]) -> (r: Result<Self, DymexError>)
        ensures
            match compile(expression@, names(variables@)) {
                Ok(s) => r matches Ok(e) && e@ == s,
                Err(x) => r matches Err(e) && e@ == x,
            },
            r matches Ok(e) ==> e@.ordered(),
    {
        proof {
            crate::dynmath::order::lemma_compiled_ordered(expression@, names(variables@));
        }
        let ast = match parse_source(expression, variables) {
            Ok(ast) => ast,
            Err(e) => {
                return Err(e);
            },
        };
        match Self::from_ast(ast) {
            Some(program) => Ok(program),
            None => Err(
                DymexError::ParsingError(
                    ParsingError::NotImplemented(String::from_str(TOO_LARGE_ERR)),
                ),
            ),
        }
    }

    /// The program of a parsed expression.
    pub fn from_ast(ast: AST) -> (r: Option<Self>)
        ensures
            match ast.parsed() {
                Some(tree) => match EvaluatorView::flatten(tree) {
                    Some(s) => r matches Some(e) && e@ == s,
                    None => r is None,
                },
                None => r matches Some(e) && e@ == EvaluatorView::empty(),
            },
    {
        flatten_tree(ast)
    }

    /// The number of ids in use.
    pub fn nodes(&self) -> (r: u32)
        ensures
            r == self@.nodes,
    {
        self.ids.count()
    }

    /// The operation under an id, if there is one.
    pub fn operation(&self, id: u16) -> (r: Option<&Evaluand>)
        ensures
            match r {
                Some(e) => self@.ops.contains_key(id) && self@.ops[id] == e@,
                None => !self@.ops.contains_key(id),
            },
    {
        broadcast use vstd::std_specs::hash::group_hash_axioms;

        self.expressions.get(&id)
    }

    /// The value at hand under an id, if there is one.
    pub fn value(&self, id: u16) -> (r: Option<&Value>)
        ensures
            match r {
                Some(v) => self@.values.contains_key(id) && self@.values[id] == v@,
                None => !self@.values.contains_key(id),
            },
    {
        broadcast use vstd::std_specs::hash::group_hash_axioms;

        self.values.get(&id)
    }

    /// The id that an input's name stands for, if it stands for one.
    pub fn alias(&self, name: &str) -> (r: Option<u16>)
        ensures
            r == lookup(self@.aliases, name@),
    {
        find_alias(&self.aliases, name)
    }
}

impl EvaluatorView {
    /// Whether an id is the slot of an input: some name stands for it.
    pub open spec fn is_input_slot(self, id: u16) -> bool {
        exists|j: int| 0 <= j < self.aliases.len() && (#[trigger] self.aliases[j]).1 == id
    }

    /// The order of the ids. There are no more ids than 16 bits give, and
    /// every id in use is below the number of ids. Every operand of an
    /// operation has a higher id than the operation, or is the slot of an input;
    /// and the slot of an input is never an operation. So the operand of an
    /// operation is either given before the walk or reached before the
    /// operation, when the operations are walked from the highest id down.
    pub open spec fn ordered(self) -> bool {
        &&& self.nodes <= 0x1_0000
        &&& forall|j: int|
            0 <= j < self.aliases.len() ==> ((#[trigger] self.aliases[j]).1 as nat) < self.nodes
        &&& forall|j: int|
            0 <= j < self.aliases.len() ==> !self.ops.contains_key((#[trigger] self.aliases[j]).1)
        &&& forall|p: u16| #[trigger] self.ops.contains_key(p) ==> (p as nat) < self.nodes
        &&& forall|p: u16, k: int|
            self.ops.contains_key(p) && 0 <= k < self.ops[p].args.len() ==> {
                let c = #[trigger] self.ops[p].args[k];
                (c as nat) < self.nodes && (c > p || self.is_input_slot(c))
            }
    }

    /// Whether the state has come from `before` by taking ids and names only:
    /// no id and no name is lost, and every new name stands for a new id.
    pub open spec fn grown_from(self, before: EvaluatorView) -> bool {
        &&& before.nodes <= self.nodes
        &&& before.aliases.len() <= self.aliases.len()
        &&& forall|j: int| 0 <= j < before.aliases.len() ==> self.aliases[j] == before.aliases[j]
        &&& forall|j: int|
            before.aliases.len() <= j < self.aliases.len() ==> (#[trigger] self.aliases[j]).1
                >= before.nodes
    }

    /// How many requests a run may still make, at most: one for each literal
    /// that is not converted, and one for each id at or below the cursor.
    pub open spec fn remaining(self) -> nat {
        self.literals.len() + self.cursor
    }

    /// Whether two states of one program are alike in all that a run looks
    /// at: they stand at the same place of the same run, and hold the same
    /// values wherever a value is not left over from an earlier run, that is,
    /// at every id that is no operation, and at every operation that the run
    /// has done already.
    pub open spec fn agrees_with(self, other: EvaluatorView) -> bool {
        &&& self.same_program(other)
        &&& self.literals == other.literals
        &&& self.cursor == other.cursor
        &&& self.cursor <= self.nodes
        &&& self.waiting == other.waiting
        &&& forall|id: u16|
            !self.ops.contains_key(id) || id >= self.cursor ==> (
            #[trigger] self.values.contains_key(id) <==> other.values.contains_key(id))
        &&& forall|id: u16|
            (!self.ops.contains_key(id) || id >= self.cursor)
                && #[trigger] self.values.contains_key(id) ==> self.values[id]
                == other.values[id]
    }

    /// Whether two states of one program hold the same values at every id that
    /// is no operation, and the same literals.
    pub open spec fn same_leaves(self, other: EvaluatorView) -> bool {
        &&& self.same_program(other)
        &&& self.literals == other.literals
        &&& forall|id: u16|
            !self.ops.contains_key(id) ==> (#[trigger] self.values.contains_key(id)
                <==> other.values.contains_key(id))
        &&& forall|id: u16|
            !self.ops.contains_key(id) && #[trigger] self.values.contains_key(id)
                ==> self.values[id] == other.values[id]
    }
}

/// The view of a step or an error.
pub open spec fn step_view(r: Result<Step, EvaluationError>) -> Result<
    StepView,
    EvaluationErrorView,
> {
    match r {
        Ok(step) => Ok(step@),
        Err(e) => Err(e@),
    }
}

/// Whether a value or an error is what a tree has: the value, if the tree
/// has one, and else an error.
pub open spec fn has_as(r: Result<Value, EvaluationError>, expected: Option<ValueView>) -> bool {
    match expected {
        Some(v) => r matches Ok(x) && x@ == v,
        None => r is Err,
    }
}

/// Whether an arithmetic unit computes the function `u`: whatever it answers
/// to a request is what `u` gives for the request.
pub open spec fn computes<F: Fn(&Request) -> Answer>(
    unit: F,
    u: spec_fn(RequestView) -> AnswerView,
) -> bool {
    forall|request: &Request, answer: Answer| #[trigger]
        call_ensures(unit, (request,), answer) ==> answer@ == u(request@)
}

impl Evaluator {
    /// Evaluates the expression with the inputs from start to end: every
    /// request for arithmetic is answered by `unit`, until the value is there
    /// or an error ends the run.
    ///
    /// The run ends: it makes at most one request for each literal and each
    /// id of the program. Where the run needs no arithmetic at all, the answer
    /// is the one of [`Evaluator::evaluate`]. Else it is the one that
    /// [`Evaluator::resume`] comes to with the answers of `unit`, one after the
    /// other: if `unit` computes a function, the answer is where the run ends
    /// that this function drives, and a value is then the value that the
    /// program means under its root, in the sense of [`node_value`]. In the
    /// first run of a program, the answer is the value of the tree that the
    /// program was made of, in the sense of [`tree_value`], where the tree has
    /// one, and an error where it has none. Of the answers of `unit`
    /// themselves nothing is known here. The program itself is never changed.
    ///
    /// The state afterwards is the one in which that run ends, in the sense of
    /// [`driven_to`]. From there, a run on the same inputs with the same
    /// arithmetic comes to the same answer again:
    /// [`crate::dynmath::repeat::lemma_second_run_equals_first`].
    pub fn evaluate_with<F: Fn(&Request) -> Answer>(
        &mut self,
        inputs: &Vec<(String, Value)>,
        unit: F,
    ) -> (r: Result<Value, EvaluationError>)
        requires
            forall|request: &Request| call_requires(unit, (request,)),
        ensures
            final(self)@.same_program(old(self)@),
            match old(self)@.start(input_views(inputs@)).1 {
                Ok(StepView::Done(v)) => r matches Ok(x) && x@ == v,
                Err(e) => r matches Err(x) && x@ == e,
                Ok(StepView::Ask(_)) => true,
            },
            !(old(self)@.start(input_views(inputs@)).1 matches Ok(StepView::Ask(_)))
                ==> final(self)@ == old(self)@.start(input_views(inputs@)).0,
            forall|u: spec_fn(RequestView) -> AnswerView| #[trigger]
                computes(unit, u) ==> crate::dynmath::values_as(
                    r,
                    driven(
                        old(self)@.start(input_views(inputs@)).0,
                        old(self)@.start(input_views(inputs@)).1,
                        u,
                    ),
                ),
            forall|u: spec_fn(RequestView) -> AnswerView| #[trigger]
                computes(unit, u) ==> final(self)@ == driven_to(
                    old(self)@.start(input_views(inputs@)).0,
                    old(self)@.start(input_views(inputs@)).1,
                    u,
                ),
            forall|u: spec_fn(RequestView) -> AnswerView| #[trigger]
                computes(unit, u) && old(self)@.ordered() ==> (r matches Ok(v) ==> node_value(
                    EvaluatorView {
                        values: old(self)@.bound(input_views(inputs@), 0),
                        ..old(self)@
                    },
                    u,
                    0,
                ) == Some(v@)),
            forall|u: spec_fn(RequestView) -> AnswerView, tree: BranchView|
                #[trigger] computes(unit, u) && (#[trigger] EvaluatorView::flatten(tree)) == Some(
                    old(self)@,
                ) ==> has_as(r, tree_value(tree, last_given(input_views(inputs@)), u)),
    {
        proof {
            assert forall|u: spec_fn(RequestView) -> AnswerView, tree: BranchView|
                (#[trigger] EvaluatorView::flatten(tree)) == Some(
                    old(self)@,
                ) implies match #[trigger] tree_value(
                tree,
                last_given(input_views(inputs@)),
                u,
            ) {
                Some(v) => driven(
                    old(self)@.start(input_views(inputs@)).0,
                    old(self)@.start(input_views(inputs@)).1,
                    u,
                ) == Ok::<ValueView, EvaluationErrorView>(v),
                None => driven(
                    old(self)@.start(input_views(inputs@)).0,
                    old(self)@.start(input_views(inputs@)).1,
                    u,
                ) is Err,
            } by {
                crate::dynmath::faithful::lemma_first_run_is_tree_value(
                    tree,
                    input_views(inputs@),
                    u,
                );
            }
        }
        proof {
            assert forall|u: spec_fn(RequestView) -> AnswerView|
                old(self)@.ordered() implies (#[trigger] driven(
                old(self)@.start(input_views(inputs@)).0,
                old(self)@.start(input_views(inputs@)).1,
                u,
            ) matches Ok(v) ==> node_value(
                EvaluatorView { values: old(self)@.bound(input_views(inputs@), 0), ..old(self)@ },
                u,
                0,
            ) == Some(v)) by {
                crate::dynmath::meaning::lemma_run_means(old(self)@, input_views(inputs@), u);
            }
        }
        let mut step = self.evaluate(inputs);
        let ghost begun = old(self)@.start(input_views(inputs@));
        let ghost mut asked = false;
        loop
            invariant
                self@.same_program(old(self)@),
                forall|request: &Request| call_requires(unit, (request,)),
                begun == old(self)@.start(input_views(inputs@)),
                !asked ==> self@ == begun.0 && steps_as(step, begun.1),
                asked ==> begun.1 matches Ok(StepView::Ask(_)),
                forall|u: spec_fn(RequestView) -> AnswerView| #[trigger]
                    computes(unit, u) ==> driven(self@, step_view(step), u) == driven(
                        begun.0,
                        begun.1,
                        u,
                    ) && driven_to(self@, step_view(step), u) == driven_to(begun.0, begun.1, u),
                forall|u: spec_fn(RequestView) -> AnswerView, tree: BranchView|
                    (#[trigger] EvaluatorView::flatten(tree)) == Some(
                        old(self)@,
                    ) ==> match #[trigger] tree_value(
                        tree,
                        last_given(input_views(inputs@)),
                        u,
                    ) {
                        Some(v) => driven(begun.0, begun.1, u) == Ok::<
                            ValueView,
                            EvaluationErrorView,
                        >(v),
                        None => driven(begun.0, begun.1, u) is Err,
                    },
                forall|u: spec_fn(RequestView) -> AnswerView|
                    old(self)@.ordered() ==> (#[trigger] driven(begun.0, begun.1, u) matches Ok(
                        v,
                    ) ==> node_value(
                        EvaluatorView {
                            values: old(self)@.bound(input_views(inputs@), 0),
                            ..old(self)@
                        },
                        u,
                        0,
                    ) == Some(v)),
            decreases
                    self@.remaining() + (if step matches Ok(Step::Ask(_)) {
                        1nat
                    } else {
                        0nat
                    }),
        {
            match step {
                Err(e) => {
                    return Err(e);
                },
                Ok(Step::Done(value)) => {
                    return Ok(value);
                },
                Ok(Step::Ask(request)) => {
                    let ghost before = self@;
                    let answer = unit(&request);
                    proof {
                        crate::dynmath::order::lemma_accept_progress(self@, answer@);
                        asked = true;
                    }
                    let ghost given = answer@;
                    step = self.resume(answer);
                    assert forall|u: spec_fn(RequestView) -> AnswerView| #[trigger]
                        computes(unit, u) implies driven(self@, step_view(step), u) == driven(
                        begun.0,
                        begun.1,
                        u,
                    ) && driven_to(self@, step_view(step), u) == driven_to(
                        begun.0,
                        begun.1,
                        u,
                    ) by {
                        assert(u(request@) == given);
                        assert(before.accept(given) == (self@, step_view(step)));
                        assert(driven(
                            before,
                            Ok::<StepView, EvaluationErrorView>(StepView::Ask(request@)),
                            u,
                        ) == driven(self@, step_view(step), u));
                        assert(driven_to(
                            before,
                            Ok::<StepView, EvaluationErrorView>(StepView::Ask(request@)),
                            u,
                        ) == driven_to(self@, step_view(step), u));
                    }
                },
            }
        }
    }
}

} // verus!
