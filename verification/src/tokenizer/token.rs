//! The tokens of the expression language and their printed forms.

use vstd::prelude::*;
use vstd::string::StringExecFns;
use crate::text::str_eq;
use crate::tokenizer::number::NumberLiteral;

verus! {

/// The largest number of arguments a variadic function accepts.
pub const MAX_FUNC_ARGS: usize = 64;

/// The operators of arithmetic.
#[derive(Debug, PartialEq, Eq, Clone, Copy, Structural)]
pub enum ArithmeticOperator {
    Plus,
    Minus,
    Mul,
    Div,
    Rem,
    Pow,
    Negate,
}

impl ArithmeticOperator {
    /// The printed form of the operator.
    pub open spec fn text(self) -> Seq<char> {
        match self {
            ArithmeticOperator::Plus => "+"@,
            ArithmeticOperator::Minus => "-"@,
            ArithmeticOperator::Mul => "*"@,
            ArithmeticOperator::Div => "/"@,
            ArithmeticOperator::Pow => "**"@,
            ArithmeticOperator::Rem => "%"@,
            ArithmeticOperator::Negate => "~"@,
        }
    }

    /// The printed form.
    pub fn to_string(&self) -> (r: String)
        ensures
            r@ == self.text(),
    {
        match self {
            ArithmeticOperator::Plus => String::from_str("+"),
            ArithmeticOperator::Minus => String::from_str("-"),
            ArithmeticOperator::Mul => String::from_str("*"),
            ArithmeticOperator::Div => String::from_str("/"),
            ArithmeticOperator::Pow => String::from_str("**"),
            ArithmeticOperator::Rem => String::from_str("%"),
            ArithmeticOperator::Negate => String::from_str("~"),
        }
    }
}

/// The operators that compare. They are reserved: the scanner knows them, the
/// parser refuses them.
#[derive(Debug, PartialEq, Eq, Clone, Copy, Structural)]
pub enum RelationalOperator {
    Greater,
    Lesser,
    Eq,
    Neq,
    Leq,
    Geq,
}

impl RelationalOperator {
    /// The printed form of the operator.
    pub open spec fn text(self) -> Seq<char> {
        match self {
            RelationalOperator::Greater => ">"@,
            RelationalOperator::Lesser => "<"@,
            RelationalOperator::Eq => "=="@,
            RelationalOperator::Neq => "\u{2260}"@,
            RelationalOperator::Leq => "\u{2264}"@,
            RelationalOperator::Geq => "\u{2265}"@,
        }
    }

    /// The printed form.
    pub fn to_string(&self) -> (r: String)
        ensures
            r@ == self.text(),
    {
        match self {
            RelationalOperator::Greater => String::from_str(">"),
            RelationalOperator::Lesser => String::from_str("<"),
            RelationalOperator::Eq => String::from_str("=="),
            RelationalOperator::Neq => String::from_str("\u{2260}"),
            RelationalOperator::Leq => String::from_str("\u{2264}"),
            RelationalOperator::Geq => String::from_str("\u{2265}"),
        }
    }
}

/// The operators of logic. They are reserved.
#[derive(Debug, PartialEq, Eq, Clone, Copy, Structural)]
pub enum LogicalOperator {
    And,
    Or,
}

impl LogicalOperator {
    /// The printed form of the operator.
    pub open spec fn text(self) -> Seq<char> {
        match self {
            LogicalOperator::And => "and"@,
            LogicalOperator::Or => "or"@,
        }
    }

    /// The printed form.
    pub fn to_string(&self) -> (r: String)
        ensures
            r@ == self.text(),
    {
        match self {
            LogicalOperator::And => String::from_str("and"),
            LogicalOperator::Or => String::from_str("or"),
        }
    }
}

/// The operators that assign. All but the simple one are reserved.
#[derive(Debug, PartialEq, Eq, Clone, Copy, Structural)]
pub enum AssignmentOperator {
    Assign,
    PlusEq,
    MinusEq,
    TimesEq,
    DivideEq,
}

impl AssignmentOperator {
    /// The printed form of the operator.
    pub open spec fn text(self) -> Seq<char> {
        match self {
            AssignmentOperator::Assign => "="@,
            AssignmentOperator::PlusEq => "+="@,
            AssignmentOperator::MinusEq => "-="@,
            AssignmentOperator::TimesEq => "*="@,
            AssignmentOperator::DivideEq => "/="@,
        }
    }

    /// The printed form.
    pub fn to_string(&self) -> (r: String)
        ensures
            r@ == self.text(),
    {
        match self {
            AssignmentOperator::Assign => String::from_str("="),
            AssignmentOperator::PlusEq => String::from_str("+="),
            AssignmentOperator::MinusEq => String::from_str("-="),
            AssignmentOperator::TimesEq => String::from_str("*="),
            AssignmentOperator::DivideEq => String::from_str("/="),
        }
    }
}

/// The built-in functions.
#[derive(Debug, PartialEq, Eq, Clone, Copy, Structural)]
pub enum Function {
    Min,
    Max,
    Avg,
    Std,
    Sum,
    Range,
    Abs,
    Sin,
    Cos,
    Tan,
    Cot,
    Exp,
    Log,
    Log2,
    Log10,
    Sqrt,
}

impl Function {
    /// The printed form of the function: its name.
    pub open spec fn text(self) -> Seq<char> {
        match self {
            Function::Min => "Min"@,
            Function::Max => "Max"@,
            Function::Avg => "Avg"@,
            Function::Std => "Std"@,
            Function::Sum => "Sum"@,
            Function::Range => "Range"@,
            Function::Abs => "Abs"@,
            Function::Sin => "Sin"@,
            Function::Cos => "Cos"@,
            Function::Tan => "Tan"@,
            Function::Cot => "Cot"@,
            Function::Exp => "Exp"@,
            Function::Log => "Log"@,
            Function::Log2 => "Log2"@,
            Function::Log10 => "Log10"@,
            Function::Sqrt => "Sqrt"@,
        }
    }

    /// A function that reduces its arguments to one number; the others map one
    /// argument element by element.
    pub open spec fn is_reduction(self) -> bool {
        match self {
            Function::Min | Function::Max | Function::Avg | Function::Std | Function::Sum
            | Function::Range => true,
            _ => false,
        }
    }

    /// The largest number of arguments a call of the function may have.
    pub open spec fn max_args(self) -> usize {
        if self.is_reduction() {
            MAX_FUNC_ARGS
        } else {
            1
        }
    }

    /// The printed form.
    pub fn to_string(&self) -> (r: String)
        ensures
            r@ == self.text(),
    {
        match self {
            Function::Min => String::from_str("Min"),
            Function::Max => String::from_str("Max"),
            Function::Avg => String::from_str("Avg"),
            Function::Std => String::from_str("Std"),
            Function::Sum => String::from_str("Sum"),
            Function::Range => String::from_str("Range"),
            Function::Abs => String::from_str("Abs"),
            Function::Sin => String::from_str("Sin"),
            Function::Cos => String::from_str("Cos"),
            Function::Tan => String::from_str("Tan"),
            Function::Cot => String::from_str("Cot"),
            Function::Exp => String::from_str("Exp"),
            Function::Log => String::from_str("Log"),
            Function::Log2 => String::from_str("Log2"),
            Function::Log10 => String::from_str("Log10"),
            Function::Sqrt => String::from_str("Sqrt"),
        }
    }
}

/// The built-in mathematical constants.
#[derive(Debug, PartialEq, Eq, Clone, Copy, Structural)]
pub enum Constant {
    Pi,
    Euler,
    Sqrt2,
    Sqrt3,
    PiTimes2,
    SqrtPi,
    Pi2,
}

impl Constant {
    /// The printed form of the constant.
    pub open spec fn text(self) -> Seq<char> {
        match self {
            Constant::Pi => "\u{3c0}"@,
            Constant::Euler => "e"@,
            Constant::Pi2 => "\u{3c0}\u{b2}"@,
            Constant::PiTimes2 => "2\u{3c0}"@,
            Constant::Sqrt2 => "\u{221a}2"@,
            Constant::Sqrt3 => "\u{221a}3"@,
            Constant::SqrtPi => "\u{221a}\u{3c0}"@,
        }
    }

    /// The IEEE 754 binary64 bit pattern of the constant.
    pub open spec fn bits(self) -> u64 {
        match self {
            Constant::Pi => 0x4009_21fb_5444_2d18,
            Constant::Euler => 0x4005_bf0a_8b14_5769,
            Constant::Pi2 => 0x4023_bd3c_c9be_45de,
            Constant::PiTimes2 => 0x4019_21fb_5444_2d18,
            Constant::Sqrt2 => 0x3ff6_a09e_667f_3bcd,
            Constant::Sqrt3 => 0x3ffb_b67a_e858_606b,
            Constant::SqrtPi => 0x3ffc_5bf8_91b5_3e4d,
        }
    }

    /// The printed form.
    pub fn to_string(&self) -> (r: String)
        ensures
            r@ == self.text(),
    {
        match self {
            Constant::Pi => String::from_str("\u{3c0}"),
            Constant::Euler => String::from_str("e"),
            Constant::Pi2 => String::from_str("\u{3c0}\u{b2}"),
            Constant::PiTimes2 => String::from_str("2\u{3c0}"),
            Constant::Sqrt2 => String::from_str("\u{221a}2"),
            Constant::Sqrt3 => String::from_str("\u{221a}3"),
            Constant::SqrtPi => String::from_str("\u{221a}\u{3c0}"),
        }
    }

    /// The value of the constant, as the bit pattern of the binary64 number
    /// nearest to it.
    pub fn value(&self) -> (r: u64)
        ensures
            r == self.bits(),
    {
        match self {
            Constant::Pi => 0x4009_21fb_5444_2d18,
            Constant::Euler => 0x4005_bf0a_8b14_5769,
            Constant::Pi2 => 0x4023_bd3c_c9be_45de,
            Constant::PiTimes2 => 0x4019_21fb_5444_2d18,
            Constant::Sqrt2 => 0x3ff6_a09e_667f_3bcd,
            Constant::Sqrt3 => 0x3ffb_b67a_e858_606b,
            Constant::SqrtPi => 0x3ffc_5bf8_91b5_3e4d,
        }
    }
}

/// A token of the expression language.
#[derive(Debug, PartialEq)]
pub enum Token {
    ArOp(ArithmeticOperator),
    RelOp(RelationalOperator),
    LogicOp(LogicalOperator),
    AssignOp(AssignmentOperator),
    /// `(`
    LP,
    /// `)`
    RP,
    /// `[`
    LB,
    /// `]`
    RB,
    Comma,
    Semicolon,
    Dot,
    Colon,
    Number(NumberLiteral),
    Const(Constant),
    Var(String),
    /// A function and the largest number of arguments it takes.
    Func(Function, usize),
    Eof,
}

/// What a token is, with texts as sequences of characters.
pub enum TokenView {
    ArOp(ArithmeticOperator),
    RelOp(RelationalOperator),
    LogicOp(LogicalOperator),
    AssignOp(AssignmentOperator),
    LP,
    RP,
    LB,
    RB,
    Comma,
    Semicolon,
    Dot,
    Colon,
    Number(Seq<char>),
    Const(Constant),
    Var(Seq<char>),
    Func(Function, usize),
    Eof,
}

impl TokenView {
    /// The printed form of the token.
    pub open spec fn text(self) -> Seq<char> {
        match self {
            TokenView::ArOp(o) => o.text(),
            TokenView::RelOp(o) => o.text(),
            TokenView::LogicOp(o) => o.text(),
            TokenView::AssignOp(o) => o.text(),
            TokenView::LP => "("@,
            TokenView::RP => ")"@,
            TokenView::LB => "["@,
            TokenView::RB => "]"@,
            TokenView::Comma => ","@,
            TokenView::Semicolon => ";"@,
            TokenView::Dot => "."@,
            TokenView::Colon => ":"@,
            TokenView::Number(x) => x,
            TokenView::Const(c) => c.text(),
            TokenView::Var(s) => s,
            TokenView::Func(f, _) => f.text(),
            TokenView::Eof => "Eof"@,
        }
    }

    /// A number, a constant or an input name: what can be a leaf of a tree.
    pub open spec fn is_atom(self) -> bool {
        self is Number || self is Const || self is Var
    }
}

impl View for Token {
    type V = TokenView;

    open spec fn view(&self) -> TokenView {
        match self {
            Token::ArOp(o) => TokenView::ArOp(*o),
            Token::RelOp(o) => TokenView::RelOp(*o),
            Token::LogicOp(o) => TokenView::LogicOp(*o),
            Token::AssignOp(o) => TokenView::AssignOp(*o),
            Token::LP => TokenView::LP,
            Token::RP => TokenView::RP,
            Token::LB => TokenView::LB,
            Token::RB => TokenView::RB,
            Token::Comma => TokenView::Comma,
            Token::Semicolon => TokenView::Semicolon,
            Token::Dot => TokenView::Dot,
            Token::Colon => TokenView::Colon,
            Token::Number(x) => TokenView::Number(x@),
            Token::Const(c) => TokenView::Const(*c),
            Token::Var(s) => TokenView::Var(s@),
            Token::Func(f, n) => TokenView::Func(*f, *n),
            Token::Eof => TokenView::Eof,
        }
    }
}

impl Clone for Token {
    fn clone(&self) -> (r: Self)
        ensures
            r == *self,
    {
        match self {
            Token::ArOp(o) => Token::ArOp(*o),
            Token::RelOp(o) => Token::RelOp(*o),
            Token::LogicOp(o) => Token::LogicOp(*o),
            Token::AssignOp(o) => Token::AssignOp(*o),
            Token::LP => Token::LP,
            Token::RP => Token::RP,
            Token::LB => Token::LB,
            Token::RB => Token::RB,
            Token::Comma => Token::Comma,
            Token::Semicolon => Token::Semicolon,
            Token::Dot => Token::Dot,
            Token::Colon => Token::Colon,
            Token::Number(x) => Token::Number(x.clone()),
            Token::Const(c) => Token::Const(*c),
            Token::Var(s) => Token::Var(s.clone()),
            Token::Func(f, n) => Token::Func(*f, *n),
            Token::Eof => Token::Eof,
        }
    }
}

impl Token {
    /// The printed form of the token.
    pub fn to_string(&self) -> (r: String)
        ensures
            r@ == self@.text(),
    {
        match self {
            Token::ArOp(o) => o.to_string(),
            Token::RelOp(o) => o.to_string(),
            Token::LogicOp(o) => o.to_string(),
            Token::AssignOp(o) => o.to_string(),
            Token::LP => String::from_str("("),
            Token::RP => String::from_str(")"),
            Token::LB => String::from_str("["),
            Token::RB => String::from_str("]"),
            Token::Comma => String::from_str(","),
            Token::Semicolon => String::from_str(";"),
            Token::Dot => String::from_str("."),
            Token::Colon => String::from_str(":"),
            Token::Number(x) => String::from_str(x.as_str()),
            Token::Const(c) => c.to_string(),
            Token::Var(s) => s.clone(),
            Token::Func(f, _) => f.to_string(),
            Token::Eof => String::from_str("Eof"),
        }
    }

    /// Tells whether two tokens are the same: of the same kind, with the same
    /// operator, function, name or literal text.
    pub fn same(&self, other: &Token) -> (r: bool)
        ensures
            r == (self@ == other@),
    {
        match (self, other) {
            (Token::ArOp(a), Token::ArOp(b)) => *a == *b,
            (Token::RelOp(a), Token::RelOp(b)) => *a == *b,
            (Token::LogicOp(a), Token::LogicOp(b)) => *a == *b,
            (Token::AssignOp(a), Token::AssignOp(b)) => *a == *b,
            (Token::LP, Token::LP) => true,
            (Token::RP, Token::RP) => true,
            (Token::LB, Token::LB) => true,
            (Token::RB, Token::RB) => true,
            (Token::Comma, Token::Comma) => true,
            (Token::Semicolon, Token::Semicolon) => true,
            (Token::Dot, Token::Dot) => true,
            (Token::Colon, Token::Colon) => true,
            (Token::Number(a), Token::Number(b)) => str_eq(a.as_str(), b.as_str()),
            (Token::Const(a), Token::Const(b)) => *a == *b,
            (Token::Var(a), Token::Var(b)) => str_eq(a.as_str(), b.as_str()),
            (Token::Func(f, n), Token::Func(g, m)) => *f == *g && *n == *m,
            (Token::Eof, Token::Eof) => true,
            _ => false,
        }
    }

    /// Tells whether the token is a number, a constant or an input name.
    pub fn is_atom(&self) -> (r: bool)
        ensures
            r == self@.is_atom(),
    {
        match self {
            Token::Var(_) | Token::Number(_) | Token::Const(_) => true,
            _ => false,
        }
    }
}

/// A token with its place in the source: the byte offset of its first
/// character and the number of bytes it spans. Within one stream the offset
/// is unique, so it also identifies the token.
#[derive(Debug, PartialEq)]
pub struct TokenContext {
    pub token: Token,
    pub at: usize,
    pub len: usize,
}

/// A [`TokenContext`] as a mathematical value.
pub struct TokenContextView {
    pub token: TokenView,
    pub at: usize,
    pub len: usize,
}

impl View for TokenContext {
    type V = TokenContextView;

    open spec fn view(&self) -> TokenContextView {
        TokenContextView { token: self.token@, at: self.at, len: self.len }
    }
}

impl Clone for TokenContext {
    fn clone(&self) -> (r: Self)
        ensures
            r == *self,
    {
        TokenContext { token: self.token.clone(), at: self.at, len: self.len }
    }
}

impl TokenContext {
    /// The token at its place.
    pub fn new(token: Token, at: usize, len: usize) -> (r: Self)
        ensures
            r == (TokenContext { token, at, len }),
    {
        Self { token, at, len }
    }

    /// A token without a place: position 0 and length 0.
    pub fn dummy(token: Token) -> (r: Self)
        ensures
            r == (TokenContext { token, at: 0, len: 0 }),
    {
        Self { token, at: 0, len: 0 }
    }
}

/// The views of a sequence of tokens, one by one.
pub open spec fn views(tokens: Seq<TokenContext>) -> Seq<TokenContextView> {
    Seq::new(tokens.len(), |i: int| tokens[i]@)
}

} // verus!
