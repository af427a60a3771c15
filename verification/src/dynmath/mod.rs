//! Values and the rules of arithmetic between their categories.
//!
//! A number is held as the bit pattern of an IEEE 754 binary64 value. No
//! arithmetic on numbers is done here: each rule decides which operands an
//! operation combines, or why it cannot, and states the work as a
//! [`Request`] that an arithmetic unit outside answers.
//!
//! The program and its evaluation are in [`eval`]. What is proved of them is
//! in four further modules: [`order`], that the ids of a program are ordered
//! and that a run depends on nothing that earlier runs have left behind;
//! [`meaning`], that a run comes to the value that the program means;
//! [`faithful`], that the program of a tree means what the tree means; and
//! [`repeat`], that a program which is run again on the same inputs comes to
//! the same answer.

pub mod eval;
pub mod faithful;
pub mod meaning;
pub mod order;
pub mod repeat;

use vstd::prelude::*;
use vstd::string::StringExecFns;
use crate::text::{debug_quoted, quoted};
use crate::tokenizer::number::NumberLiteral;
use crate::tokenizer::token::ArithmeticOperator;

verus! {

/// The largest number of dimensions of a value.
pub const MAXDIM: usize = 3;

/// What is said of a reducing function that gets no argument.
pub const ZERO_ARGS_ERR: &'static str = "needs at least one argument";

/// What is said of a reducing function that gets several arguments, not all of them numbers.
pub const MULTI_ARGS_ERR: &'static str = "accepts a single array or multiple scalar values";

/// The coarse class of a value.
#[derive(Debug, PartialEq, Eq, Clone, Copy, Structural)]
pub enum Category {
    /// A single number.
    Number,
    /// A sequence of numbers.
    Array,
    /// A value of the host's own; it takes part in no arithmetic.
    Unique,
}

impl Category {
    /// The name of the category.
    pub open spec fn name(self) -> Seq<char> {
        match self {
            Category::Number => "Number"@,
            Category::Array => "Array"@,
            Category::Unique => "Unique"@,
        }
    }

    /// The name of the category.
    pub fn to_str(&self) -> (r: &'static str)
        ensures
            r@ == self.name(),
    {
        match self {
            Category::Number => "Number",
            Category::Array => "Array",
            Category::Unique => "Unique",
        }
    }
}

/// A value at run time.
#[derive(Debug, PartialEq)]
pub enum Value {
    /// A number, as its bit pattern.
    Number(u64),
    /// Numbers in a row, each as its bit pattern.
    Array(Vec<u64>),
    /// A handle to a value that the host keeps.
    Unique(u64),
}

/// A [`Value`] as a mathematical value.
pub enum ValueView {
    Number(u64),
    Array(Seq<u64>),
    Unique(u64),
}

impl View for Value {
    type V = ValueView;

    open spec fn view(&self) -> ValueView {
        match self {
            Value::Number(x) => ValueView::Number(*x),
            Value::Array(v) => ValueView::Array(v@),
            Value::Unique(h) => ValueView::Unique(*h),
        }
    }
}

impl Clone for Value {
    fn clone(&self) -> (r: Self)
        ensures
            r@ == self@,
    {
        match self {
            Value::Number(x) => Value::Number(*x),
            Value::Array(v) => Value::Array(v.clone()),
            Value::Unique(h) => Value::Unique(*h),
        }
    }
}

impl ValueView {
    /// The category of the value.
    pub open spec fn category(self) -> Category {
        match self {
            ValueView::Number(_) => Category::Number,
            ValueView::Array(_) => Category::Array,
            ValueView::Unique(_) => Category::Unique,
        }
    }

    /// The extents of the value along each dimension: none for a number, the
    /// length for an array.
    pub open spec fn shape(self) -> Seq<nat> {
        match self {
            ValueView::Array(v) => seq![v.len(), 0, 0],
            _ => seq![0, 0, 0],
        }
    }

    /// Whether two values can be combined element by element: a number fits
    /// anything, two arrays fit when their shapes are equal, and nothing else
    /// fits.
    pub open spec fn shape_matches(self, other: ValueView) -> bool {
        match (self.category(), other.category()) {
            (Category::Number, _) => true,
            (_, Category::Number) => true,
            (Category::Array, Category::Array) => self.shape() == other.shape(),
            _ => false,
        }
    }
}

/// An operation that maps one number to one number.
#[derive(Debug, PartialEq, Eq, Clone, Copy, Structural)]
pub enum Mapping {
    Negate,
    Abs,
    Sin,
    Cos,
    Tan,
    Cot,
    Exp,
    Log,
    Log2,
    Log10,
    Sqrt,
    Cbrt,
    Pow2,
    Pow3,
    Pow4,
}

/// An operation that reduces a set of numbers to one number.
#[derive(Debug, PartialEq, Eq, Clone, Copy, Structural)]
pub enum Reduction {
    Min,
    Max,
    Range,
    Sum,
    Avg,
    Std,
    L2Norm,
    L1Norm,
}

impl Reduction {
    /// The name of the reduction as a function.
    pub open spec fn name(self) -> Seq<char> {
        match self {
            Reduction::Min => "min"@,
            Reduction::Max => "max"@,
            Reduction::Range => "range"@,
            Reduction::Sum => "sum"@,
            Reduction::Avg => "avg"@,
            Reduction::Std => "std"@,
            Reduction::L2Norm => "l2_norm"@,
            Reduction::L1Norm => "l1_norm"@,
        }
    }

    /// The name of the reduction as an operation on one value.
    pub open spec fn operation(self) -> Seq<char> {
        match self {
            Reduction::Min => "min()"@,
            Reduction::Max => "max()"@,
            Reduction::Range => "range()"@,
            Reduction::Sum => "sum()"@,
            Reduction::Avg => "avg()"@,
            Reduction::Std => "std()"@,
            Reduction::L2Norm => "l2_norm()"@,
            Reduction::L1Norm => "l1_norm()"@,
        }
    }

    /// The name of the reduction as a function.
    pub fn name_str(&self) -> (r: &'static str)
        ensures
            r@ == self.name(),
    {
        match self {
            Reduction::Min => "min",
            Reduction::Max => "max",
            Reduction::Range => "range",
            Reduction::Sum => "sum",
            Reduction::Avg => "avg",
            Reduction::Std => "std",
            Reduction::L2Norm => "l2_norm",
            Reduction::L1Norm => "l1_norm",
        }
    }

    /// The name of the reduction as an operation on one value.
    pub fn operation_str(&self) -> (r: &'static str)
        ensures
            r@ == self.operation(),
    {
        match self {
            Reduction::Min => "min()",
            Reduction::Max => "max()",
            Reduction::Range => "range()",
            Reduction::Sum => "sum()",
            Reduction::Avg => "avg()",
            Reduction::Std => "std()",
            Reduction::L2Norm => "l2_norm()",
            Reduction::L1Norm => "l1_norm()",
        }
    }
}

/// Work for the arithmetic unit.
#[derive(Debug, PartialEq)]
pub enum Request {
    /// The number that a literal denotes.
    Literal(NumberLiteral),
    /// For each position, `lhs` combined with `rhs` by `op`, in this order.
    /// The two have the same length.
    Binary { op: ArithmeticOperator, lhs: Vec<u64>, rhs: Vec<u64> },
    /// For each position, `func` of the number there.
    Apply { func: Mapping, args: Vec<u64> },
    /// The one number that `func` reduces `data` to.
    Reduce { kind: Reduction, data: Vec<u64> },
    /// The integer that a number equals.
    Integer(u64),
}

/// A [`Request`] as a mathematical value.
pub enum RequestView {
    Literal(Seq<char>),
    Binary { op: ArithmeticOperator, lhs: Seq<u64>, rhs: Seq<u64> },
    Apply { func: Mapping, args: Seq<u64> },
    Reduce { kind: Reduction, data: Seq<u64> },
    Integer(u64),
}

impl View for Request {
    type V = RequestView;

    open spec fn view(&self) -> RequestView {
        match self {
            Request::Literal(x) => RequestView::Literal(x@),
            Request::Binary { op, lhs, rhs } => RequestView::Binary {
                op: *op,
                lhs: lhs@,
                rhs: rhs@,
            },
            Request::Apply { func, args } => RequestView::Apply { func: *func, args: args@ },
            Request::Reduce { kind, data } => RequestView::Reduce { kind: *kind, data: data@ },
            Request::Integer(x) => RequestView::Integer(*x),
        }
    }
}

impl RequestView {
    /// How many numbers answer the request; none where an integer does.
    pub open spec fn answers(self) -> nat {
        match self {
            RequestView::Literal(_) => 1,
            RequestView::Binary { lhs, .. } => lhs.len(),
            RequestView::Apply { args, .. } => args.len(),
            RequestView::Reduce { .. } => 1,
            RequestView::Integer(_) => 0,
        }
    }
}

/// What the arithmetic unit answers.
#[derive(Debug, PartialEq)]
pub enum Answer {
    /// The numbers asked for, in order.
    Numbers(Vec<u64>),
    /// The integer that the number equals.
    Integer(i64),
    /// The number equals no integer of 64 bits.
    NoInteger,
}

/// An [`Answer`] as a mathematical value.
pub enum AnswerView {
    Numbers(Seq<u64>),
    Integer(i64),
    NoInteger,
}

impl View for Answer {
    type V = AnswerView;

    open spec fn view(&self) -> AnswerView {
        match self {
            Answer::Numbers(v) => AnswerView::Numbers(v@),
            Answer::Integer(i) => AnswerView::Integer(*i),
            Answer::NoInteger => AnswerView::NoInteger,
        }
    }
}

/// An error found while evaluating.
#[derive(Debug, PartialEq)]
pub enum EvaluationError {
    InvalidBinaryOperation { operation: String, lhs: String, rhs: String },
    InvalidUnaryOperation { operation: String, operand: String },
    InvalidField { kind_name: &'static str, field: String },
    InvalidArguments { function: String, details: String },
    Unknown,
}

/// An [`EvaluationError`] as a mathematical value.
pub enum EvaluationErrorView {
    InvalidBinaryOperation { operation: Seq<char>, lhs: Seq<char>, rhs: Seq<char> },
    InvalidUnaryOperation { operation: Seq<char>, operand: Seq<char> },
    InvalidField { kind_name: Seq<char>, field: Seq<char> },
    InvalidArguments { function: Seq<char>, details: Seq<char> },
    Unknown,
}

impl View for EvaluationError {
    type V = EvaluationErrorView;

    open spec fn view(&self) -> EvaluationErrorView {
        match self {
            EvaluationError::InvalidBinaryOperation {
                operation,
                lhs,
                rhs,
            } => EvaluationErrorView::InvalidBinaryOperation {
                operation: operation@,
                lhs: lhs@,
                rhs: rhs@,
            },
            EvaluationError::InvalidUnaryOperation {
                operation,
                operand,
            } => EvaluationErrorView::InvalidUnaryOperation {
                operation: operation@,
                operand: operand@,
            },
            EvaluationError::InvalidField {
                kind_name,
                field,
            } => EvaluationErrorView::InvalidField { kind_name: kind_name@, field: field@ },
            EvaluationError::InvalidArguments {
                function,
                details,
            } => EvaluationErrorView::InvalidArguments { function: function@, details: details@ },
            EvaluationError::Unknown => EvaluationErrorView::Unknown,
        }
    }
}

impl Clone for EvaluationError {
    fn clone(&self) -> (r: Self)
        ensures
            r == *self,
    {
        match self {
            EvaluationError::InvalidBinaryOperation {
                operation,
                lhs,
                rhs,
            } => EvaluationError::InvalidBinaryOperation {
                operation: operation.clone(),
                lhs: lhs.clone(),
                rhs: rhs.clone(),
            },
            EvaluationError::InvalidUnaryOperation {
                operation,
                operand,
            } => EvaluationError::InvalidUnaryOperation {
                operation: operation.clone(),
                operand: operand.clone(),
            },
            EvaluationError::InvalidField { kind_name, field } => EvaluationError::InvalidField {
                kind_name: *kind_name,
                field: field.clone(),
            },
            EvaluationError::InvalidArguments {
                function,
                details,
            } => EvaluationError::InvalidArguments {
                function: function.clone(),
                details: details.clone(),
            },
            EvaluationError::Unknown => EvaluationError::Unknown,
        }
    }
}

impl EvaluationErrorView {
    /// The error in words. Every name in it is written as `Debug` writes a
    /// string.
    pub open spec fn message(self) -> Seq<char> {
        match self {
            EvaluationErrorView::InvalidBinaryOperation { operation, lhs, rhs } => "operation `"@
                + quoted(operation) + "` not supported between `"@ + quoted(lhs) + "` and `"@
                + quoted(rhs) + "`"@,
            EvaluationErrorView::InvalidUnaryOperation { operation, operand } => "operation `"@
                + quoted(operation) + "` not applicable to `"@ + quoted(operand) + "`"@,
            EvaluationErrorView::InvalidField { kind_name, field } => "`"@ + quoted(kind_name)
                + "` has no field named `"@ + quoted(field) + "`"@,
            EvaluationErrorView::InvalidArguments { function, details } => {
                "invalid arguments for `"@ + quoted(function) + "`: "@ + quoted(details)
            },
            EvaluationErrorView::Unknown => "unknown error"@,
        }
    }
}

impl EvaluationError {
    /// The error in words.
    pub fn to_string(&self) -> (r: String)
        ensures
            r@ == self@.message(),
    {
        match self {
            EvaluationError::InvalidBinaryOperation { operation, lhs, rhs } => {
                let mut s = String::from_str("operation `");
                s.append(debug_quoted(operation.as_str()).as_str());
                s.append("` not supported between `");
                s.append(debug_quoted(lhs.as_str()).as_str());
                s.append("` and `");
                s.append(debug_quoted(rhs.as_str()).as_str());
                s.append("`");
                s
            },
            EvaluationError::InvalidUnaryOperation { operation, operand } => {
                let mut s = String::from_str("operation `");
                s.append(debug_quoted(operation.as_str()).as_str());
                s.append("` not applicable to `");
                s.append(debug_quoted(operand.as_str()).as_str());
                s.append("`");
                s
            },
            EvaluationError::InvalidField { kind_name, field } => {
                let mut s = String::from_str("`");
                s.append(debug_quoted(kind_name).as_str());
                s.append("` has no field named `");
                s.append(debug_quoted(field.as_str()).as_str());
                s.append("`");
                s
            },
            EvaluationError::InvalidArguments { function, details } => {
                let mut s = String::from_str("invalid arguments for `");
                s.append(debug_quoted(function.as_str()).as_str());
                s.append("`: ");
                s.append(debug_quoted(details.as_str()).as_str());
                s
            },
            EvaluationError::Unknown => String::from_str("unknown error"),
        }
    }
}

/// The error of an operation between two values that cannot be combined.
pub open spec fn invalid_binary(
    operation: Seq<char>,
    lhs: ValueView,
    rhs: ValueView,
) -> EvaluationErrorView {
    EvaluationErrorView::InvalidBinaryOperation {
        operation,
        lhs: lhs.category().name(),
        rhs: rhs.category().name(),
    }
}

/// The error of an operation on a value that does not take it.
pub open spec fn invalid_unary(operation: Seq<char>, operand: ValueView) -> EvaluationErrorView {
    EvaluationErrorView::InvalidUnaryOperation { operation, operand: operand.category().name() }
}

/// The error of a function called with arguments that it does not take.
pub open spec fn invalid_arguments(function: Seq<char>, details: Seq<char>) -> EvaluationErrorView {
    EvaluationErrorView::InvalidArguments { function, details }
}

/// `n` times the number `x`.
pub open spec fn spread(x: u64, n: nat) -> Seq<u64> {
    Seq::new(n, |i: int| x)
}

/// Whether a request or an error is what `expected` says.
pub open spec fn asks_as(
    r: Result<Request, EvaluationError>,
    expected: Result<RequestView, EvaluationErrorView>,
) -> bool {
    match expected {
        Ok(q) => r matches Ok(x) && x@ == q,
        Err(e) => r matches Err(x) && x@ == e,
    }
}

/// Whether a value or an error is what `expected` says.
pub open spec fn values_as(
    r: Result<Value, EvaluationError>,
    expected: Result<ValueView, EvaluationErrorView>,
) -> bool {
    match expected {
        Ok(v) => r matches Ok(x) && x@ == v,
        Err(e) => r matches Err(x) && x@ == e,
    }
}

/// Whether swapping the operands of the operator leaves the result as it is.
pub open spec fn commutes(op: ArithmeticOperator) -> bool {
    op == ArithmeticOperator::Plus || op == ArithmeticOperator::Mul
}

/// Whether the operator combines two numbers to a number.
pub open spec fn is_binary(op: ArithmeticOperator) -> bool {
    op != ArithmeticOperator::Rem && op != ArithmeticOperator::Negate
}

/// What an operation between two values asks of the arithmetic unit.
///
/// Two numbers are combined as they stand. An array and a number: each
/// element with the number. A number and an array: for `+` and `*` as the
/// array and the number; for the others, the number with each element, in this
/// order. Two arrays of one shape: element with element. Anything else is an
/// error.
pub open spec fn binary_request(op: ArithmeticOperator, lhs: ValueView, rhs: ValueView) -> Result<
    RequestView,
    EvaluationErrorView,
> {
    if !is_binary(op) {
        Err(invalid_binary(op.text(), lhs, rhs))
    } else {
        match (lhs, rhs) {
            (ValueView::Number(a), ValueView::Number(b)) => Ok(
                RequestView::Binary { op, lhs: seq![a], rhs: seq![b] },
            ),
            (ValueView::Array(v), ValueView::Number(b)) => Ok(
                RequestView::Binary { op, lhs: v, rhs: spread(b, v.len()) },
            ),
            (ValueView::Number(a), ValueView::Array(w)) => if commutes(op) {
                Ok(RequestView::Binary { op, lhs: w, rhs: spread(a, w.len()) })
            } else {
                Ok(RequestView::Binary { op, lhs: spread(a, w.len()), rhs: w })
            },
            (ValueView::Array(v), ValueView::Array(w)) => if lhs.shape_matches(rhs) {
                Ok(RequestView::Binary { op, lhs: v, rhs: w })
            } else {
                Err(invalid_binary(op.text(), lhs, rhs))
            },
            _ => Err(invalid_binary(op.text(), lhs, rhs)),
        }
    }
}

/// What an operation on the elements of one value asks of the arithmetic
/// unit: the operation on the number, or on each element of the array.
pub open spec fn map_request(func: Mapping, operation: Seq<char>, operand: ValueView) -> Result<
    RequestView,
    EvaluationErrorView,
> {
    match operand {
        ValueView::Number(a) => Ok(RequestView::Apply { func, args: seq![a] }),
        ValueView::Array(v) => Ok(RequestView::Apply { func, args: v }),
        _ => Err(invalid_unary(operation, operand)),
    }
}

/// What a reduction of one value asks of the arithmetic unit: an array is
/// reduced over its elements; no other value has a reduction of its own.
pub open spec fn own_reduction(func: Reduction, operand: ValueView) -> Result<
    RequestView,
    EvaluationErrorView,
> {
    match operand {
        ValueView::Array(v) => Ok(RequestView::Reduce { kind: func, data: v }),
        _ => Err(invalid_unary(func.operation(), operand)),
    }
}

/// Whether every one of the values is a number.
pub open spec fn all_numbers(args: Seq<ValueView>) -> bool {
    forall|i: int| 0 <= i < args.len() ==> (#[trigger] args[i]) is Number
}

/// The numbers that the values hold, one for one.
pub open spec fn numbers_of(args: Seq<ValueView>) -> Seq<u64> {
    Seq::new(args.len(), |i: int| args[i]->Number_0)
}

/// What a call of a reducing function asks of the arithmetic unit. Without
/// arguments it is an error. One argument is reduced by its own reduction.
/// Several arguments are reduced as one set of data if all are numbers, and
/// are an error if not.
pub open spec fn reduce_request(func: Reduction, args: Seq<ValueView>) -> Result<
    RequestView,
    EvaluationErrorView,
> {
    if args.len() == 0 {
        Err(invalid_arguments(func.name(), ZERO_ARGS_ERR@))
    } else if args.len() == 1 {
        own_reduction(func, args[0])
    } else if !all_numbers(args) {
        Err(invalid_arguments(func.name(), MULTI_ARGS_ERR@))
    } else {
        Ok(RequestView::Reduce { kind: func, data: numbers_of(args) })
    }
}

/// The views of a sequence of values, one by one.
pub open spec fn value_views(values: Seq<Value>) -> Seq<ValueView> {
    Seq::new(values.len(), |i: int| values[i]@)
}

/// The place that an index names in a row of `len` elements: a non-negative
/// index counts from the front, a negative one from the back; none if it
/// points outside.
pub open spec fn index_position(index: i64, len: nat) -> Option<nat> {
    if 0 <= index < len {
        Some(index as nat)
    } else if index < 0 && len + index >= 0 {
        Some((len + index) as nat)
    } else {
        None
    }
}

/// Finds the place that an index names in a row of `len` elements.
pub fn resolve_index(index: i64, len: usize) -> (r: Option<usize>)
    ensures
        match index_position(index, len as nat) {
            Some(p) => r == Some(p as usize) && p < len,
            None => r is None,
        },
{
    if index >= 0 {
        if (index as u64) < (len as u64) {
            Some(index as usize)
        } else {
            None
        }
    } else {
        let back: u64 = if index == i64::MIN {
            0x8000_0000_0000_0000
        } else {
            (-index) as u64
        };
        if back <= len as u64 {
            Some((len as u64 - back) as usize)
        } else {
            None
        }
    }
}

pub(crate) fn unimpl_binary(operation: &str, lhs: &Value, rhs: &Value) -> (r: EvaluationError)
    ensures
        r@ == invalid_binary(operation@, lhs@, rhs@),
{
    EvaluationError::InvalidBinaryOperation {
        operation: String::from_str(operation),
        lhs: String::from_str(lhs.kind_name()),
        rhs: String::from_str(rhs.kind_name()),
    }
}

pub(crate) fn unimpl_unary(operation: &str, operand: &Value) -> (r: EvaluationError)
    ensures
        r@ == invalid_unary(operation@, operand@),
{
    EvaluationError::InvalidUnaryOperation {
        operation: String::from_str(operation),
        operand: String::from_str(operand.kind_name()),
    }
}

/// The error of a function called with arguments that it does not take.
pub fn invalid_args_err(func: &str, details: &str) -> (r: EvaluationError)
    ensures
        r@ == invalid_arguments(func@, details@),
{
    EvaluationError::InvalidArguments {
        function: String::from_str(func),
        details: String::from_str(details),
    }
}

/// A row of `n` times the number `x`.
fn spread_of(x: u64, n: usize) -> (r: Vec<u64>)
    ensures
        r@ == spread(x, n as nat),
{
    let mut r: Vec<u64> = Vec::new();
    let mut i: usize = 0;
    while i < n
        invariant
            i <= n,
            r@ == spread(x, i as nat),
        decreases n - i,
    {
        r.push(x);
        i = i + 1;
        assert(r@ =~= spread(x, i as nat));
    }
    r
}

fn single(x: u64) -> (r: Vec<u64>)
    ensures
        r@ == seq![x],
{
    let mut r: Vec<u64> = Vec::new();
    r.push(x);
    assert(r@ =~= seq![x]);
    r
}

impl Value {
    /// The category of the value.
    pub fn category(&self) -> (r: Category)
        ensures
            r == self@.category(),
    {
        match self {
            Value::Number(_) => Category::Number,
            Value::Array(_) => Category::Array,
            Value::Unique(_) => Category::Unique,
        }
    }

    /// The extents of the value along each dimension.
    pub fn shape(&self) -> (r: [usize; 3])
        ensures
            forall|i: int| 0 <= i < 3 ==> r@[i] as nat == self@.shape()[i],
    {
        match self {
            Value::Array(v) => [v.len(), 0, 0],
            _ => [0usize, 0, 0],
        }
    }

    /// Tells whether two values can be combined element by element.
    pub fn shape_matches(&self, other: &Value) -> (r: bool)
        ensures
            r == self@.shape_matches(other@),
    {
        match (self, other) {
            (Value::Number(_), _) => true,
            (_, Value::Number(_)) => true,
            (Value::Array(v), Value::Array(w)) => {
                assert(self@.shape()[0] == v@.len());
                assert(other@.shape()[0] == w@.len());
                assert(v@.len() == w@.len() ==> self@.shape() =~= other@.shape());
                v.len() == w.len()
            },
            _ => false,
        }
    }

    /// The name of the value's category.
    pub fn kind_name(&self) -> (r: &'static str)
        ensures
            r@ == self@.category().name(),
    {
        self.category().to_str()
    }

    /// The number that the value is.
    pub fn as_number(&self) -> (r: u64)
        requires
            self@ is Number,
        ensures
            self@ == ValueView::Number(r),
    {
        match self {
            Value::Number(x) => *x,
            _ => 0,
        }
    }

    /// The elements of the array that the value is.
    pub fn iterate(&self) -> (r: &[u64])
        requires
            self@ is Array,
        ensures
            self@ == ValueView::Array(r@),
    {
        match self {
            Value::Array(v) => v.as_slice(),
            _ => &[],
        }
    }

    /// The field `field_name` of the value. No value of these categories has
    /// a field.
    pub fn get_field(&self, field_name: &str) -> (r: Result<Value, EvaluationError>)
        ensures
            r matches Err(e) && e@ == (EvaluationErrorView::InvalidField {
                kind_name: self@.category().name(),
                field: field_name@,
            }),
    {
        Err(
            EvaluationError::InvalidField {
                kind_name: self.kind_name(),
                field: String::from_str(field_name),
            },
        )
    }

    /// States the operation `op` between `self` and `other`.
    pub fn binary(&self, op: ArithmeticOperator, other: &Value) -> (r: Result<
        Request,
        EvaluationError,
    >)
        ensures
            asks_as(r, binary_request(op, self@, other@)),
    {
        let text = op.to_string();
        match op {
            ArithmeticOperator::Rem | ArithmeticOperator::Negate => {
                return Err(unimpl_binary(text.as_str(), self, other));
            },
            _ => {},
        }
        match (self, other) {
            (Value::Number(a), Value::Number(b)) => Ok(
                Request::Binary { op, lhs: single(*a), rhs: single(*b) },
            ),
            (Value::Array(v), Value::Number(b)) => Ok(
                Request::Binary { op, lhs: v.clone(), rhs: spread_of(*b, v.len()) },
            ),
            (Value::Number(a), Value::Array(w)) => {
                match op {
                    ArithmeticOperator::Plus | ArithmeticOperator::Mul => Ok(
                        Request::Binary { op, lhs: w.clone(), rhs: spread_of(*a, w.len()) },
                    ),
                    _ => Ok(Request::Binary { op, lhs: spread_of(*a, w.len()), rhs: w.clone() }),
                }
            },
            (Value::Array(v), Value::Array(w)) => {
                if self.shape_matches(other) {
                    Ok(Request::Binary { op, lhs: v.clone(), rhs: w.clone() })
                } else {
                    Err(unimpl_binary(text.as_str(), self, other))
                }
            },
            _ => Err(unimpl_binary(text.as_str(), self, other)),
        }
    }

    /// States the sum of `self` and `other`.
    pub fn add(&self, other: &Value) -> (r: Result<Request, EvaluationError>)
        ensures
            asks_as(r, binary_request(ArithmeticOperator::Plus, self@, other@)),
    {
        self.binary(ArithmeticOperator::Plus, other)
    }

    /// States the difference of `self` and `other`.
    pub fn sub(&self, other: &Value) -> (r: Result<Request, EvaluationError>)
        ensures
            asks_as(r, binary_request(ArithmeticOperator::Minus, self@, other@)),
    {
        self.binary(ArithmeticOperator::Minus, other)
    }

    /// States the product of `self` and `other`.
    pub fn mul(&self, other: &Value) -> (r: Result<Request, EvaluationError>)
        ensures
            asks_as(r, binary_request(ArithmeticOperator::Mul, self@, other@)),
    {
        self.binary(ArithmeticOperator::Mul, other)
    }

    /// States the quotient of `self` and `other`.
    pub fn div(&self, other: &Value) -> (r: Result<Request, EvaluationError>)
        ensures
            asks_as(r, binary_request(ArithmeticOperator::Div, self@, other@)),
    {
        self.binary(ArithmeticOperator::Div, other)
    }

    /// States `self` raised to the power `other`.
    pub fn pow(&self, other: &Value) -> (r: Result<Request, EvaluationError>)
        ensures
            asks_as(r, binary_request(ArithmeticOperator::Pow, self@, other@)),
    {
        self.binary(ArithmeticOperator::Pow, other)
    }

    /// States the subtraction of `self` from `other`.
    pub fn sub_inv(&self, other: &Value) -> (r: Result<Request, EvaluationError>)
        ensures
            asks_as(r, binary_request(ArithmeticOperator::Minus, other@, self@)),
    {
        other.binary(ArithmeticOperator::Minus, self)
    }

    /// States the division of `other` by `self`.
    pub fn div_inv(&self, other: &Value) -> (r: Result<Request, EvaluationError>)
        ensures
            asks_as(r, binary_request(ArithmeticOperator::Div, other@, self@)),
    {
        other.binary(ArithmeticOperator::Div, self)
    }

    /// States `other` raised to the power `self`.
    pub fn pow_inv(&self, other: &Value) -> (r: Result<Request, EvaluationError>)
        ensures
            asks_as(r, binary_request(ArithmeticOperator::Pow, other@, self@)),
    {
        other.binary(ArithmeticOperator::Pow, self)
    }

    /// States `func` of each element of the array that the value is.
    pub fn elementwise(&self, func: Mapping) -> (r: Request)
        requires
            self@ is Array,
        ensures
            r@ == (RequestView::Apply { func, args: self@->Array_0 }),
    {
        match self {
            Value::Array(v) => Request::Apply { func, args: v.clone() },
            _ => Request::Apply { func, args: Vec::new() },
        }
    }

    /// States the operation `func`, named `op` in errors, on the number or on
    /// each element of the array.
    pub fn unary_dispatcher(&self, func: Mapping, op: &str) -> (r: Result<
        Request,
        EvaluationError,
    >)
        ensures
            asks_as(r, map_request(func, op@, self@)),
    {
        match self {
            Value::Number(a) => Ok(Request::Apply { func, args: single(*a) }),
            Value::Array(_) => Ok(self.elementwise(func)),
            _ => Err(unimpl_unary(op, self)),
        }
    }

    /// States the reduction `func` of the value by itself.
    pub fn reduce(&self, func: Reduction) -> (r: Result<Request, EvaluationError>)
        ensures
            asks_as(r, own_reduction(func, self@)),
    {
        match self {
            Value::Array(v) => Ok(Request::Reduce { kind: func, data: v.clone() }),
            _ => Err(unimpl_unary(func.operation_str(), self)),
        }
    }
}

impl Value {
    /// States the smallest element of the value.
    pub fn min(&self) -> (r: Result<Request, EvaluationError>)
        ensures
            asks_as(r, own_reduction(Reduction::Min, self@)),
    {
        self.reduce(Reduction::Min)
    }

    /// States the largest element of the value.
    pub fn max(&self) -> (r: Result<Request, EvaluationError>)
        ensures
            asks_as(r, own_reduction(Reduction::Max, self@)),
    {
        self.reduce(Reduction::Max)
    }

    /// States the mean of the elements of the value.
    pub fn avg(&self) -> (r: Result<Request, EvaluationError>)
        ensures
            asks_as(r, own_reduction(Reduction::Avg, self@)),
    {
        self.reduce(Reduction::Avg)
    }

    /// States the standard deviation of the elements of the value.
    pub fn std_dev(&self) -> (r: Result<Request, EvaluationError>)
        ensures
            asks_as(r, own_reduction(Reduction::Std, self@)),
    {
        self.reduce(Reduction::Std)
    }

    /// States the sum of the elements of the value.
    pub fn sum(&self) -> (r: Result<Request, EvaluationError>)
        ensures
            asks_as(r, own_reduction(Reduction::Sum, self@)),
    {
        self.reduce(Reduction::Sum)
    }

    /// States the distance between the largest and the smallest element of the value.
    pub fn range(&self) -> (r: Result<Request, EvaluationError>)
        ensures
            asks_as(r, own_reduction(Reduction::Range, self@)),
    {
        self.reduce(Reduction::Range)
    }

    /// States the Euclidean norm of the value.
    pub fn l2_norm(&self) -> (r: Result<Request, EvaluationError>)
        ensures
            asks_as(r, own_reduction(Reduction::L2Norm, self@)),
    {
        self.reduce(Reduction::L2Norm)
    }

    /// States the sum of the magnitudes of the elements of the value.
    pub fn l1_norm(&self) -> (r: Result<Request, EvaluationError>)
        ensures
            asks_as(r, own_reduction(Reduction::L1Norm, self@)),
    {
        self.reduce(Reduction::L1Norm)
    }

    /// States the sine of the value, element by element.
    pub fn dyn_sin(&self) -> (r: Result<Request, EvaluationError>)
        ensures
            asks_as(r, map_request(Mapping::Sin, "sin()"@, self@)),
    {
        self.unary_dispatcher(Mapping::Sin, "sin()")
    }

    /// States the cosine of the value, element by element.
    pub fn dyn_cos(&self) -> (r: Result<Request, EvaluationError>)
        ensures
            asks_as(r, map_request(Mapping::Cos, "cos()"@, self@)),
    {
        self.unary_dispatcher(Mapping::Cos, "cos()")
    }

    /// States the tangent of the value, element by element.
    pub fn dyn_tan(&self) -> (r: Result<Request, EvaluationError>)
        ensures
            asks_as(r, map_request(Mapping::Tan, "tan()"@, self@)),
    {
        self.unary_dispatcher(Mapping::Tan, "tan()")
    }

    /// States the cotangent of the value, element by element.
    pub fn dyn_cot(&self) -> (r: Result<Request, EvaluationError>)
        ensures
            asks_as(r, map_request(Mapping::Cot, "cot()"@, self@)),
    {
        self.unary_dispatcher(Mapping::Cot, "cot()")
    }

    /// States the exponential of the value, element by element.
    pub fn dyn_exp(&self) -> (r: Result<Request, EvaluationError>)
        ensures
            asks_as(r, map_request(Mapping::Exp, "exp()"@, self@)),
    {
        self.unary_dispatcher(Mapping::Exp, "exp()")
    }

    /// States the natural logarithm of the value, element by element.
    pub fn dyn_log(&self) -> (r: Result<Request, EvaluationError>)
        ensures
            asks_as(r, map_request(Mapping::Log, "log()"@, self@)),
    {
        self.unary_dispatcher(Mapping::Log, "log()")
    }

    /// States the logarithm to the base 2 of the value, element by element.
    pub fn dyn_log2(&self) -> (r: Result<Request, EvaluationError>)
        ensures
            asks_as(r, map_request(Mapping::Log2, "log2()"@, self@)),
    {
        self.unary_dispatcher(Mapping::Log2, "log2()")
    }

    /// States the logarithm to the base 10 of the value, element by element.
    pub fn dyn_log10(&self) -> (r: Result<Request, EvaluationError>)
        ensures
            asks_as(r, map_request(Mapping::Log10, "log10()"@, self@)),
    {
        self.unary_dispatcher(Mapping::Log10, "log10()")
    }

    /// States the square root of the value, element by element.
    pub fn dyn_sqrt(&self) -> (r: Result<Request, EvaluationError>)
        ensures
            asks_as(r, map_request(Mapping::Sqrt, "sqrt()"@, self@)),
    {
        self.unary_dispatcher(Mapping::Sqrt, "sqrt()")
    }

    /// States the magnitude of the value, element by element.
    pub fn dyn_abs(&self) -> (r: Result<Request, EvaluationError>)
        ensures
            asks_as(r, map_request(Mapping::Abs, "abs()"@, self@)),
    {
        self.unary_dispatcher(Mapping::Abs, "abs()")
    }

    /// States the cube root of the value, element by element.
    pub fn dyn_cbrt(&self) -> (r: Result<Request, EvaluationError>)
        ensures
            asks_as(r, map_request(Mapping::Cbrt, "cbrt()"@, self@)),
    {
        self.unary_dispatcher(Mapping::Cbrt, "cbrt()")
    }

    /// States the square of the value, element by element.
    pub fn dyn_pow2(&self) -> (r: Result<Request, EvaluationError>)
        ensures
            asks_as(r, map_request(Mapping::Pow2, "^2"@, self@)),
    {
        self.unary_dispatcher(Mapping::Pow2, "^2")
    }

    /// States the cube of the value, element by element.
    pub fn dyn_pow3(&self) -> (r: Result<Request, EvaluationError>)
        ensures
            asks_as(r, map_request(Mapping::Pow3, "^3"@, self@)),
    {
        self.unary_dispatcher(Mapping::Pow3, "^3")
    }

    /// States the fourth power of the value, element by element.
    pub fn dyn_pow4(&self) -> (r: Result<Request, EvaluationError>)
        ensures
            asks_as(r, map_request(Mapping::Pow4, "^4"@, self@)),
    {
        self.unary_dispatcher(Mapping::Pow4, "^4")
    }
}

/// Tells whether every one of the values is a number.
pub fn all_scalars(args: &[Value]) -> (r: bool)
    ensures
        r == all_numbers(value_views(args@)),
{
    let mut i: usize = 0;
    while i < args.len()
        invariant
            i <= args.len(),
            forall|k: int| 0 <= k < i ==> (#[trigger] value_views(args@)[k]) is Number,
        decreases args.len() - i,
    {
        match args[i] {
            Value::Number(_) => {},
            _ => {
                assert(!(value_views(args@)[i as int] is Number));
                return false;
            },
        }
        i = i + 1;
    }
    true
}

/// The numbers that the values are, one for one.
pub fn unbox_numbers(args: &[Value]) -> (r: Vec<u64>)
    requires
        all_numbers(value_views(args@)),
    ensures
        r@ == numbers_of(value_views(args@)),
{
    let mut r: Vec<u64> = Vec::new();
    let mut i: usize = 0;
    while i < args.len()
        invariant
            i <= args.len(),
            all_numbers(value_views(args@)),
            r@ == numbers_of(value_views(args@)).take(i as int),
        decreases args.len() - i,
    {
        assert(value_views(args@)[i as int] is Number);
        r.push(args[i].as_number());
        i = i + 1;
        assert(r@ =~= numbers_of(value_views(args@)).take(i as int));
    }
    assert(numbers_of(value_views(args@)).take(args@.len() as int) =~= numbers_of(
        value_views(args@),
    ));
    r
}

/// States the call of the reducing function `func` with the arguments `args`.
pub fn reduction(func: Reduction, args: &[Value]) -> (r: Result<Request, EvaluationError>)
    ensures
        asks_as(r, reduce_request(func, value_views(args@))),
{
    if args.len() == 0 {
        Err(invalid_args_err(func.name_str(), ZERO_ARGS_ERR))
    } else if args.len() == 1 {
        args[0].reduce(func)
    } else if !all_scalars(args) {
        Err(invalid_args_err(func.name_str(), MULTI_ARGS_ERR))
    } else {
        Ok(Request::Reduce { kind: func, data: unbox_numbers(args) })
    }
}

/// States the smallest of the arguments.
pub fn dynmath_min(args: &[Value]) -> (r: Result<Request, EvaluationError>)
    ensures
        asks_as(r, reduce_request(Reduction::Min, value_views(args@))),
{
    reduction(Reduction::Min, args)
}

/// States the largest of the arguments.
pub fn dynmath_max(args: &[Value]) -> (r: Result<Request, EvaluationError>)
    ensures
        asks_as(r, reduce_request(Reduction::Max, value_views(args@))),
{
    reduction(Reduction::Max, args)
}

/// States the distance between the largest and the smallest of the arguments.
pub fn dynmath_range(args: &[Value]) -> (r: Result<Request, EvaluationError>)
    ensures
        asks_as(r, reduce_request(Reduction::Range, value_views(args@))),
{
    reduction(Reduction::Range, args)
}

/// States the sum of the arguments.
pub fn dynmath_sum(args: &[Value]) -> (r: Result<Request, EvaluationError>)
    ensures
        asks_as(r, reduce_request(Reduction::Sum, value_views(args@))),
{
    reduction(Reduction::Sum, args)
}

/// States the mean of the arguments.
pub fn dynmath_avg(args: &[Value]) -> (r: Result<Request, EvaluationError>)
    ensures
        asks_as(r, reduce_request(Reduction::Avg, value_views(args@))),
{
    reduction(Reduction::Avg, args)
}

/// States the standard deviation of the arguments.
pub fn dynmath_std(args: &[Value]) -> (r: Result<Request, EvaluationError>)
    ensures
        asks_as(r, reduce_request(Reduction::Std, value_views(args@))),
{
    reduction(Reduction::Std, args)
}

/// States the Euclidean norm of the arguments.
pub fn dynmath_l2(args: &[Value]) -> (r: Result<Request, EvaluationError>)
    ensures
        asks_as(r, reduce_request(Reduction::L2Norm, value_views(args@))),
{
    reduction(Reduction::L2Norm, args)
}

/// States the sum of the magnitudes of the arguments.
pub fn dynmath_l1(args: &[Value]) -> (r: Result<Request, EvaluationError>)
    ensures
        asks_as(r, reduce_request(Reduction::L1Norm, value_views(args@))),
{
    reduction(Reduction::L1Norm, args)
}

/// The request with the two rows of operands exchanged.
pub open spec fn mirrored(q: RequestView) -> RequestView {
    match q {
        RequestView::Binary { op, lhs, rhs } => RequestView::Binary { op, lhs: rhs, rhs: lhs },
        _ => q,
    }
}

/// Addition and multiplication do not depend on the order of their operands:
/// with the operands exchanged they ask for the same pairs of numbers, either
/// in the same rows or with the two rows exchanged, and fail on the same
/// operands.
pub proof fn lemma_commutative_requests(op: ArithmeticOperator, a: ValueView, b: ValueView)
    requires
        commutes(op),
    ensures
        binary_request(op, a, b) is Ok <==> binary_request(op, b, a) is Ok,
        binary_request(op, a, b) matches Ok(q) ==> {
            let p = binary_request(op, b, a)->Ok_0;
            p == q || p == mirrored(q)
        },
        binary_request(op, a, b) is Err ==> binary_request(op, b, a) == Err::<
            RequestView,
            EvaluationErrorView,
        >(invalid_binary(op.text(), b, a)),
{
    if a is Array && b is Array {
        assert(a.shape()[0] == a->Array_0.len());
        assert(b.shape()[0] == b->Array_0.len());
        assert(a.shape_matches(b) ==> a.shape() =~= b.shape());
        assert(b.shape_matches(a) ==> b.shape() =~= a.shape());
    }
}

/// Arrays of different shapes are never combined: the operation is an error.
pub proof fn lemma_shape_mismatch_is_error(op: ArithmeticOperator, v: Seq<u64>, w: Seq<u64>)
    requires
        v.len() != w.len(),
    ensures
        binary_request(op, ValueView::Array(v), ValueView::Array(w)) == Err::<
            RequestView,
            EvaluationErrorView,
        >(invalid_binary(op.text(), ValueView::Array(v), ValueView::Array(w))),
{
    assert(ValueView::Array(v).shape()[0] == v.len());
    assert(ValueView::Array(w).shape()[0] == w.len());
}

/// The sequence with the elements at two places exchanged.
pub open spec fn exchanged<T>(s: Seq<T>, i: int, j: int) -> Seq<T> {
    s.update(i, s[j]).update(j, s[i])
}

/// A reducing function does not depend on the order of its arguments: with
/// two of several arguments exchanged it fails on the same arguments, and asks
/// for the same data with the two numbers exchanged.
pub proof fn lemma_reduction_exchange(kind: Reduction, args: Seq<ValueView>, i: int, j: int)
    requires
        0 <= i < args.len(),
        0 <= j < args.len(),
    ensures
        reduce_request(kind, args) is Err ==> reduce_request(kind, exchanged(args, i, j))
            == reduce_request(kind, args),
        reduce_request(kind, args) matches Ok(RequestView::Reduce { kind: k, data }) ==> args.len()
            > 1 ==> reduce_request(kind, exchanged(args, i, j)) == Ok::<
            RequestView,
            EvaluationErrorView,
        >(RequestView::Reduce { kind: k, data: exchanged(data, i, j) }),
{
    let swapped = exchanged(args, i, j);
    if args.len() == 1 {
        assert(swapped =~= args);
    } else if !all_numbers(args) {
        let w = choose|w: int| 0 <= w < args.len() && !(#[trigger] args[w] is Number);
        let v = if w == i {
            j
        } else if w == j {
            i
        } else {
            w
        };
        assert(swapped[v] == args[w]);
        assert(!all_numbers(swapped));
    } else {
        assert forall|k: int| 0 <= k < swapped.len() implies (#[trigger] swapped[k]) is Number by {
            let v = if k == i {
                j
            } else if k == j {
                i
            } else {
                k
            };
            assert(args[v] is Number);
        }
        assert(numbers_of(swapped) =~= exchanged(numbers_of(args), i, j));
    }
}

} // verus!
