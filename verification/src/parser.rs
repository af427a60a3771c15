//! From tokens to a tree, by precedence climbing.

use colored::{Color, Colorize};
use std::collections::HashMap;
use vstd::prelude::*;
use crate::error::{DymexError, DymexErrorView};
use crate::text::{byte_len, chars_of, push_char};
use crate::tokenizer::lexer::{first, lex, names, same_tokens, tail, TokenStream};
use crate::tokenizer::token::{
    views, ArithmeticOperator, AssignmentOperator, Token, TokenContext, TokenContextView,
    TokenView,
};
use vstd::string::StringExecFns;

verus! {

/// An error found while parsing. A position is a byte offset into the text
/// of the expression.
#[derive(Debug, PartialEq)]
pub enum ParsingError {
    /// A token that cannot stand where it stands; with its position.
    UnexpectedToken(usize),
    /// A `)` that closes nothing; with its position.
    UnexpectedLP(usize),
    /// Parentheses that are not closed, and how many.
    MissingRP(i32),
    /// A function call without an argument; with the position of the function.
    MissingArgument(usize),
    /// A function call with more arguments than the function takes; with the
    /// position of the function.
    TooManyArguments(usize),
    /// An operation that the language reserves but does not offer; with its
    /// position and a word on why.
    InvalidOperation(usize, String),
    NotImplemented(String),
}

/// A [`ParsingError`] as a mathematical value.
pub enum ParsingErrorView {
    UnexpectedToken(usize),
    UnexpectedLP(usize),
    MissingRP(i32),
    MissingArgument(usize),
    TooManyArguments(usize),
    InvalidOperation(usize, Seq<char>),
    NotImplemented(Seq<char>),
}

impl View for ParsingError {
    type V = ParsingErrorView;

    open spec fn view(&self) -> ParsingErrorView {
        match self {
            ParsingError::UnexpectedToken(i) => ParsingErrorView::UnexpectedToken(*i),
            ParsingError::UnexpectedLP(i) => ParsingErrorView::UnexpectedLP(*i),
            ParsingError::MissingRP(n) => ParsingErrorView::MissingRP(*n),
            ParsingError::MissingArgument(i) => ParsingErrorView::MissingArgument(*i),
            ParsingError::TooManyArguments(i) => ParsingErrorView::TooManyArguments(*i),
            ParsingError::InvalidOperation(i, s) => ParsingErrorView::InvalidOperation(*i, s@),
            ParsingError::NotImplemented(s) => ParsingErrorView::NotImplemented(s@),
        }
    }
}

impl Clone for ParsingError {
    fn clone(&self) -> (r: Self)
        ensures
            r == *self,
    {
        match self {
            ParsingError::UnexpectedToken(i) => ParsingError::UnexpectedToken(*i),
            ParsingError::UnexpectedLP(i) => ParsingError::UnexpectedLP(*i),
            ParsingError::MissingRP(n) => ParsingError::MissingRP(*n),
            ParsingError::MissingArgument(i) => ParsingError::MissingArgument(*i),
            ParsingError::TooManyArguments(i) => ParsingError::TooManyArguments(*i),
            ParsingError::InvalidOperation(i, s) => ParsingError::InvalidOperation(*i, s.clone()),
            ParsingError::NotImplemented(s) => ParsingError::NotImplemented(s.clone()),
        }
    }
}

/// A tree of the expression: a leaf, or an operator with its operands in order.
#[derive(Debug, PartialEq)]
pub enum Branch {
    Atom(TokenContext),
    Expression(TokenContext, Vec<Branch>),
}

/// A [`Branch`] as a mathematical value.
pub enum BranchView {
    Atom(TokenContextView),
    Expression(TokenContextView, Seq<BranchView>),
}

impl View for Branch {
    type V = BranchView;

    /// The tree with the views of its tokens and, in order, of its operands.
    open spec fn view(&self) -> BranchView
        decreases self,
    {
        match self {
            Branch::Atom(tc) => BranchView::Atom(tc@),
            Branch::Expression(tc, children) => BranchView::Expression(
                tc@,
                Seq::new(
                    children@.len(),
                    |i: int|
                        if 0 <= i < children@.len() {
                            children@[i]@
                        } else {
                            BranchView::Atom(tc@)
                        },
                ),
            ),
        }
    }
}

impl BranchView {
    /// The token at the root of the tree.
    pub open spec fn head(self) -> TokenContextView {
        match self {
            BranchView::Atom(tc) => tc,
            BranchView::Expression(tc, _) => tc,
        }
    }

    /// Whether an operator may have `n` operands: one for a sign, two for an
    /// operation between two values, for an index and for a field; from one up
    /// to its limit for a function.
    pub open spec fn arity_fits(op: TokenView, n: nat) -> bool {
        match op {
            TokenView::Func(_, max) => 1 <= n <= max,
            TokenView::ArOp(ArithmeticOperator::Plus) | TokenView::ArOp(
                ArithmeticOperator::Minus,
            ) => n == 1 || n == 2,
            TokenView::ArOp(_) | TokenView::RelOp(_) | TokenView::LogicOp(_) | TokenView::AssignOp(
                _,
            ) | TokenView::LB | TokenView::Dot | TokenView::Colon => n == 2,
            _ => false,
        }
    }

    /// Whether the tree is a leaf that names an input.
    pub open spec fn is_name(self) -> bool {
        self matches BranchView::Atom(tc) && tc.token is Var
    }

    /// Every leaf is a number, a constant or an input name, every operator has
    /// a number of operands that fits it, and what stands behind the dot of a
    /// field is a name.
    pub open spec fn well_formed(self) -> bool
        decreases self,
    {
        match self {
            BranchView::Atom(tc) => tc.token.is_atom(),
            BranchView::Expression(tc, children) => {
                &&& Self::arity_fits(tc.token, children.len())
                &&& tc.token is Dot ==> children[1].is_name()
                &&& forall|i: int|
                    0 <= i < children.len() ==> (#[trigger] children[i]).well_formed()
            },
        }
    }
}

/// The binding power of a token that stands before its operand.
pub open spec fn prefix_power(t: TokenView) -> Option<(usize, usize)> {
    match t {
        TokenView::ArOp(ArithmeticOperator::Plus) => Some((0, 9)),
        TokenView::ArOp(ArithmeticOperator::Minus) => Some((0, 9)),
        _ => None,
    }
}

/// The binding power of a token that stands behind its operand.
pub open spec fn postfix_power(t: TokenView) -> Option<(usize, usize)> {
    match t {
        TokenView::LB => Some((11, 0)),
        _ => None,
    }
}

/// The binding powers, to the left and to the right, of a token that stands
/// between its operands. Of the dot only the power to the left is at work:
/// what stands behind it is a name, not an expression.
pub open spec fn infix_power(t: TokenView) -> Option<(usize, usize)> {
    match t {
        TokenView::ArOp(ArithmeticOperator::Plus) => Some((10, 11)),
        TokenView::ArOp(ArithmeticOperator::Minus) => Some((10, 11)),
        TokenView::ArOp(ArithmeticOperator::Mul) => Some((12, 13)),
        TokenView::ArOp(ArithmeticOperator::Div) => Some((12, 13)),
        TokenView::ArOp(ArithmeticOperator::Pow) => Some((14, 15)),
        TokenView::RelOp(_) => Some((2, 1)),
        TokenView::LogicOp(_) => Some((4, 3)),
        TokenView::AssignOp(_) => Some((2, 1)),
        TokenView::Dot => Some((14, 13)),
        TokenView::Colon => Some((6, 5)),
        _ => None,
    }
}

/// The binding power of a token that stands before its operand.
pub fn prefix_precedence(t: &Token) -> (r: Option<(usize, usize)>)
    ensures
        r == prefix_power(t@),
{
    match t {
        Token::ArOp(o) => match o {
            ArithmeticOperator::Plus | ArithmeticOperator::Minus => Some((0, 9)),
            _ => None,
        },
        _ => None,
    }
}

/// The binding power of a token that stands behind its operand.
pub fn postfix_precedence(t: &Token) -> (r: Option<(usize, usize)>)
    ensures
        r == postfix_power(t@),
{
    match t {
        Token::LB => Some((11, 0)),
        _ => None,
    }
}

/// The binding powers, to the left and to the right, of a token that stands
/// between its operands.
pub fn infix_precedence(t: &Token) -> (r: Option<(usize, usize)>)
    ensures
        r == infix_power(t@),
{
    match t {
        Token::ArOp(o) => match o {
            ArithmeticOperator::Plus | ArithmeticOperator::Minus => Some((10, 11)),
            ArithmeticOperator::Mul | ArithmeticOperator::Div => Some((12, 13)),
            ArithmeticOperator::Pow => Some((14, 15)),
            _ => None,
        },
        Token::RelOp(_) => Some((2, 1)),
        Token::LogicOp(_) => Some((4, 3)),
        Token::AssignOp(_) => Some((2, 1)),
        Token::Dot => Some((14, 13)),
        Token::Colon => Some((6, 5)),
        _ => None,
    }
}

/// What parsing yields: a tree and the tokens that follow it, or an error.
pub type Parsed = Result<(BranchView, Seq<TokenContextView>), ParsingErrorView>;

/// What parsing the arguments of a call yields: the arguments and the tokens
/// behind the closing parenthesis, or an error.
pub type ParsedArgs = Result<(Seq<BranchView>, Seq<TokenContextView>), ParsingErrorView>;

/// The operand that the tokens `rest` begin with: a leaf; an expression in
/// parentheses; a function call with its arguments; or a sign and its operand.
/// `end` is the position of the end token: the length of the source in bytes.
pub open spec fn parse_operand(rest: Seq<TokenContextView>, end: usize) -> Parsed
    decreases rest.len(), 0nat,
{
    let next = first(rest, end);
    let rest1 = tail(rest);
    match next.token {
        TokenView::Var(_) | TokenView::Const(_) | TokenView::Number(_) => Ok(
            (BranchView::Atom(next), rest1),
        ),
        TokenView::LP => match parse_expr(rest1, end, 0) {
            Ok((inner, rest2)) => if first(rest2, end).token is RP {
                Ok((inner, tail(rest2)))
            } else {
                Err(ParsingErrorView::MissingRP(1))
            },
            Err(e) => Err(e),
        },
        TokenView::Func(_, max_args) => {
            let open = first(rest1, end);
            let rest2 = tail(rest1);
            if !(open.token is LP) {
                Err(ParsingErrorView::UnexpectedToken(open.at))
            } else if first(rest2, end).token is RP {
                Err(ParsingErrorView::MissingArgument(next.at))
            } else {
                match parse_args(rest2, end, Seq::empty()) {
                    Ok((args, rest3)) => if args.len() > max_args {
                        Err(ParsingErrorView::TooManyArguments(next.at))
                    } else {
                        Ok((BranchView::Expression(next, args), rest3))
                    },
                    Err(e) => Err(e),
                }
            }
        },
        _ => match prefix_power(next.token) {
            Some((_, r_bp)) => match parse_expr(rest1, end, r_bp) {
                Ok((rhs, rest2)) => Ok((BranchView::Expression(next, seq![rhs]), rest2)),
                Err(e) => Err(e),
            },
            None => Err(ParsingErrorView::UnexpectedToken(next.at)),
        },
    }
}

/// The operand `lhs` extended by the operators that follow it in `rest`, as
/// far as they bind at least as tightly as `min_bp`.
///
/// Behind the dot of a field stands a name and nothing else: the name is
/// taken as it is, so a field of a field is read from the left, `a.b.c` as
/// `(a.b).c`, and anything but a name there is an unexpected token.
///
/// Where the lengths of token sequences are compared, that only keeps the
/// definition well founded: by [`lemma_expression_consumes`] an expression
/// that is read takes a token, so the comparison never fails.
pub open spec fn parse_operators(
    rest: Seq<TokenContextView>,
    end: usize,
    lhs: BranchView,
    min_bp: usize,
) -> Parsed
    decreases rest.len(), 1nat,
{
    let peeked = first(rest, end);
    let rest1 = tail(rest);
    if peeked.token is Eof {
        Ok((lhs, rest))
    } else if peeked.token.is_atom() {
        Err(ParsingErrorView::UnexpectedToken(peeked.at))
    } else if let Some((l_bp, _)) = postfix_power(peeked.token) {
        if l_bp < min_bp {
            Ok((lhs, rest))
        } else {
            match parse_expr(rest1, end, 0) {
                Ok((rhs, rest2)) => {
                    let close = first(rest2, end);
                    if !(close.token is RB) {
                        Err(ParsingErrorView::UnexpectedToken(close.at))
                    } else if tail(rest2).len() < rest.len() {
                        parse_operators(
                            tail(rest2),
                            end,
                            BranchView::Expression(peeked, seq![lhs, rhs]),
                            min_bp,
                        )
                    } else {
                        Err(ParsingErrorView::UnexpectedToken(close.at))
                    }
                },
                Err(e) => Err(e),
            }
        }
    } else if let Some((l_bp, r_bp)) = infix_power(peeked.token) {
        if l_bp < min_bp {
            Ok((lhs, rest))
        } else if peeked.token is Dot {
            let name = first(rest1, end);
            if name.token is Var && tail(rest1).len() < rest.len() {
                parse_operators(
                    tail(rest1),
                    end,
                    BranchView::Expression(peeked, seq![lhs, BranchView::Atom(name)]),
                    min_bp,
                )
            } else {
                Err(ParsingErrorView::UnexpectedToken(name.at))
            }
        } else {
            match parse_expr(rest1, end, r_bp) {
                Ok((rhs, rest2)) => if rest2.len() < rest.len() {
                    parse_operators(
                        rest2,
                        end,
                        BranchView::Expression(peeked, seq![lhs, rhs]),
                        min_bp,
                    )
                } else {
                    Err(ParsingErrorView::UnexpectedToken(peeked.at))
                },
                Err(e) => Err(e),
            }
        }
    } else {
        Ok((lhs, rest))
    }
}

/// The expression that the tokens `rest` begin with, made of operators that
/// bind at least as tightly as `min_bp`, and the tokens behind it. Tokens
/// behind the expression are not looked at.
///
/// The comparison of lengths only keeps the definition well founded: by
/// [`lemma_operand_consumes`] it never fails.
pub open spec fn parse_expr(rest: Seq<TokenContextView>, end: usize, min_bp: usize) -> Parsed
    decreases rest.len(), 2nat,
{
    match parse_operand(rest, end) {
        Ok((lhs, rest1)) => if rest1.len() <= rest.len() {
            parse_operators(rest1, end, lhs, min_bp)
        } else {
            Err(ParsingErrorView::UnexpectedToken(end))
        },
        Err(e) => Err(e),
    }
}

/// The arguments of a call, separated by commas and closed by `)`, behind the
/// arguments `done` that were read before.
///
/// The comparison of lengths only keeps the definition well founded: by
/// [`lemma_expression_consumes`] it never fails.
pub open spec fn parse_args(
    rest: Seq<TokenContextView>,
    end: usize,
    done: Seq<BranchView>,
) -> ParsedArgs
    decreases rest.len(), 3nat,
{
    match parse_expr(rest, end, 0) {
        Ok((arg, rest1)) => {
            let next = first(rest1, end);
            match next.token {
                TokenView::RP => Ok((done.push(arg), tail(rest1))),
                TokenView::Comma => if tail(rest1).len() < rest.len() {
                    parse_args(tail(rest1), end, done.push(arg))
                } else {
                    Err(ParsingErrorView::UnexpectedToken(next.at))
                },
                _ => Err(ParsingErrorView::UnexpectedToken(next.at)),
            }
        },
        Err(e) => Err(e),
    }
}

/// The views of a sequence of trees, one by one.
pub open spec fn branch_views(trees: Seq<Branch>) -> Seq<BranchView> {
    Seq::new(trees.len(), |i: int| trees[i]@)
}

impl Branch {
    /// The tree of an operator with its operands.
    pub fn expression(tc: TokenContext, children: Vec<Branch>) -> (r: Branch)
        ensures
            r == Branch::Expression(tc, children),
            r@ == BranchView::Expression(tc@, branch_views(children@)),
    {
        let r = Branch::Expression(tc, children);
        proof {
            reveal_with_fuel(<Branch as View>::view, 2);
            assert(r@->Expression_1 =~= branch_views(children@));
        }
        r
    }
}

/// Whether a parser's answer `r`, with the tokens `left` that it has not read,
/// is what `expected` says.
pub open spec fn parses_as(
    r: Result<Branch, ParsingError>,
    left: Seq<TokenContextView>,
    expected: Parsed,
) -> bool {
    match expected {
        Ok((tree, rest)) => r matches Ok(b) && b@ == tree && left == rest,
        Err(e) => r matches Err(x) && x@ == e,
    }
}

/// Reads one operand from the stream.
fn operand(ts: &mut TokenStream) -> (r: Result<Branch, ParsingError>)
    ensures
        parses_as(r, final(ts).rest(), parse_operand(old(ts).rest(), old(ts).end())),
        final(ts).end() == old(ts).end(),
        final(ts).all() == old(ts).all(),
        final(ts).source() == old(ts).source(),
        final(ts).rest().len() <= old(ts).rest().len(),
        r matches Ok(b) ==> b@.well_formed() && final(ts).rest().len() < old(ts).rest().len(),
    decreases old(ts).rest().len(), 0nat,
{
    let next = ts.next();
    match &next.token {
        Token::Var(_) | Token::Const(_) | Token::Number(_) => Ok(Branch::Atom(next)),
        Token::LP => {
            match pratt_parser(ts, 0) {
                Ok(inner) => {
                    let close = ts.next();
                    match close.token {
                        Token::RP => Ok(inner),
                        _ => Err(ParsingError::MissingRP(1)),
                    }
                },
                Err(e) => Err(e),
            }
        },
        Token::Func(_, max_args) => {
            let max = *max_args;
            let open = ts.next();
            match open.token {
                Token::LP => {},
                _ => {
                    return Err(ParsingError::UnexpectedToken(open.at));
                },
            }
            let peeked = ts.peek();
            match peeked.token {
                Token::RP => {
                    return Err(ParsingError::MissingArgument(next.at));
                },
                _ => {},
            }
            match arguments(ts) {
                Ok(args) => {
                    if args.len() > max {
                        Err(ParsingError::TooManyArguments(next.at))
                    } else {
                        Ok(Branch::expression(next, args))
                    }
                },
                Err(e) => Err(e),
            }
        },
        _ => {
            match prefix_precedence(&next.token) {
                Some((_, r_bp)) => {
                    match pratt_parser(ts, r_bp) {
                        Ok(rhs) => {
                            let children = vec![rhs];
                            assert(branch_views(children@) =~= seq![rhs@]);
                            Ok(Branch::expression(next, children))
                        },
                        Err(e) => Err(e),
                    }
                },
                None => Err(ParsingError::UnexpectedToken(next.at)),
            }
        },
    }
}

/// Reads the arguments of a call, up to and with the closing parenthesis.
fn arguments(ts: &mut TokenStream) -> (r: Result<Vec<Branch>, ParsingError>)
    ensures
        match parse_args(old(ts).rest(), old(ts).end(), Seq::empty()) {
            Ok((args, rest)) => r matches Ok(v) && branch_views(v@) == args && final(ts).rest()
                == rest,
            Err(e) => r matches Err(x) && x@ == e,
        },
        final(ts).end() == old(ts).end(),
        final(ts).all() == old(ts).all(),
        final(ts).source() == old(ts).source(),
        final(ts).rest().len() <= old(ts).rest().len(),
        r matches Ok(v) ==> v@.len() >= 1 && forall|i: int|
            0 <= i < v@.len() ==> (#[trigger] v@[i])@.well_formed(),
    decreases old(ts).rest().len(), 3nat,
{
    let ghost goal = parse_args(ts.rest(), ts.end(), Seq::empty());
    let mut args: Vec<Branch> = Vec::new();
    assert(branch_views(args@) =~= Seq::empty());
    loop
        invariant
            goal == parse_args(old(ts).rest(), old(ts).end(), Seq::empty()),
            goal == parse_args(ts.rest(), ts.end(), branch_views(args@)),
            ts.end() == old(ts).end(),
            ts.all() == old(ts).all(),
            ts.source() == old(ts).source(),
            ts.rest().len() <= old(ts).rest().len(),
            forall|i: int| 0 <= i < args@.len() ==> (#[trigger] args@[i])@.well_formed(),
        decreases ts.rest().len(),
    {
        let ghost before = branch_views(args@);
        match pratt_parser(ts, 0) {
            Err(e) => {
                return Err(e);
            },
            Ok(arg) => {
                args.push(arg);
                assert(branch_views(args@) =~= before.push(arg@));
                let next = ts.next();
                match next.token {
                    Token::RP => {
                        return Ok(args);
                    },
                    Token::Comma => {},
                    _ => {
                        return Err(ParsingError::UnexpectedToken(next.at));
                    },
                }
            },
        }
    }
}

/// Extends the operand `lhs` by the operators that follow it in the stream.
fn operators(ts: &mut TokenStream, operand: Branch, min_precedence: usize) -> (r: Result<
    Branch,
    ParsingError,
>)
    requires
        operand@.well_formed(),
    ensures
        parses_as(
            r,
            final(ts).rest(),
            parse_operators(old(ts).rest(), old(ts).end(), operand@, min_precedence),
        ),
        final(ts).end() == old(ts).end(),
        final(ts).all() == old(ts).all(),
        final(ts).source() == old(ts).source(),
        final(ts).rest().len() <= old(ts).rest().len(),
        r matches Ok(b) ==> b@.well_formed(),
    decreases old(ts).rest().len(), 1nat,
{
    let ghost goal = parse_operators(ts.rest(), ts.end(), operand@, min_precedence);
    let mut lhs = operand;
    loop
        invariant
            goal == parse_operators(old(ts).rest(), old(ts).end(), operand@, min_precedence),
            goal == parse_operators(ts.rest(), ts.end(), lhs@, min_precedence),
            lhs@.well_formed(),
            ts.end() == old(ts).end(),
            ts.all() == old(ts).all(),
            ts.source() == old(ts).source(),
            ts.rest().len() <= old(ts).rest().len(),
        decreases ts.rest().len(),
    {
        let peeked = ts.peek();
        match &peeked.token {
            Token::Eof => {
                return Ok(lhs);
            },
            Token::Number(_) | Token::Const(_) | Token::Var(_) => {
                return Err(ParsingError::UnexpectedToken(peeked.at));
            },
            _ => {},
        }
        if let Some((l_bp, _)) = postfix_precedence(&peeked.token) {
            if l_bp < min_precedence {
                return Ok(lhs);
            }
            let _ = ts.next();
            match pratt_parser(ts, 0) {
                Ok(rhs) => {
                    let close = ts.next();
                    match close.token {
                        Token::RB => {},
                        _ => {
                            return Err(ParsingError::UnexpectedToken(close.at));
                        },
                    }
                    let children = vec![lhs, rhs];
                    assert(branch_views(children@) =~= seq![lhs@, rhs@]);
                    lhs = Branch::expression(peeked, children);
                },
                Err(e) => {
                    return Err(e);
                },
            }
        } else if let Some((l_bp, r_bp)) = infix_precedence(&peeked.token) {
            if l_bp < min_precedence {
                return Ok(lhs);
            }
            let _ = ts.next();
            if let Token::Dot = &peeked.token {
                let name = ts.next();
                match &name.token {
                    Token::Var(_) => {},
                    _ => {
                        return Err(ParsingError::UnexpectedToken(name.at));
                    },
                }
                let children = vec![lhs, Branch::Atom(name)];
                assert(branch_views(children@) =~= seq![lhs@, BranchView::Atom(name@)]);
                assert(BranchView::Atom(name@).well_formed());
                assert(BranchView::Expression(
                    peeked@,
                    seq![lhs@, BranchView::Atom(name@)],
                ).well_formed());
                lhs = Branch::expression(peeked, children);
                continue ;
            }
            match pratt_parser(ts, r_bp) {
                Ok(rhs) => {
                    let children = vec![lhs, rhs];
                    assert(branch_views(children@) =~= seq![lhs@, rhs@]);
                    lhs = Branch::expression(peeked, children);
                },
                Err(e) => {
                    return Err(e);
                },
            }
        } else {
            return Ok(lhs);
        }
    }
}

/// Reads from the stream the expression that its tokens begin with, made of
/// operators that bind at least as tightly as `min_precedence`. The tree is
/// the one that [`parse_expr`] describes; its operators all have a fitting
/// number of operands. Tokens behind the expression stay in the stream.
pub fn pratt_parser(ts: &mut TokenStream, min_precedence: usize) -> (r: Result<
    Branch,
    ParsingError,
>)
    ensures
        parses_as(
            r,
            final(ts).rest(),
            parse_expr(old(ts).rest(), old(ts).end(), min_precedence),
        ),
        final(ts).end() == old(ts).end(),
        final(ts).all() == old(ts).all(),
        final(ts).source() == old(ts).source(),
        final(ts).rest().len() <= old(ts).rest().len(),
        r matches Ok(b) ==> b@.well_formed() && final(ts).rest().len() < old(ts).rest().len(),
    decreases old(ts).rest().len(), 2nat,
{
    match operand(ts) {
        Ok(lhs) => operators(ts, lhs, min_precedence),
        Err(e) => Err(e),
    }
}

/// Builds the tree of the whole stream.
pub fn parse_tokenstream(ts: &mut TokenStream) -> (r: Result<Branch, ParsingError>)
    ensures
        parses_as(r, final(ts).rest(), parse_expr(old(ts).rest(), old(ts).end(), 0)),
        final(ts).end() == old(ts).end(),
        final(ts).all() == old(ts).all(),
        final(ts).source() == old(ts).source(),
        r matches Ok(b) ==> b@.well_formed(),
{
    pratt_parser(ts, 0)
}

impl BranchView {
    /// The tree in prefix form: a leaf as its token is printed; an operator
    /// as `(`, the operator, `: `, the operands separated by `, `, and `)`.
    pub open spec fn rpn(self) -> Seq<char>
        decreases self, 0nat,
    {
        match self {
            BranchView::Atom(tc) => tc.token.text(),
            BranchView::Expression(tc, children) => "("@ + tc.token.text() + Self::rpn_operands(
                children,
                children.len() as int,
            ) + ")"@,
        }
    }

    /// The first `n` operands in prefix form, the first behind `: ` and each
    /// further one behind `, `.
    pub open spec fn rpn_operands(children: Seq<BranchView>, n: int) -> Seq<char>
        decreases children, n,
    {
        if 0 < n <= children.len() {
            Self::rpn_operands(children, n - 1) + (if n == 1 {
                ": "@
            } else {
                ", "@
            }) + children[n - 1].rpn()
        } else {
            Seq::empty()
        }
    }
}

impl Branch {
    /// The tree in prefix form.
    pub fn as_rpn_str(&self) -> (r: String)
        ensures
            r@ == self@.rpn(),
        decreases self,
    {
        proof {
            reveal_with_fuel(<Branch as View>::view, 2);
        }
        match self {
            Branch::Atom(tc) => tc.token.to_string(),
            Branch::Expression(tc, children) => {
                let ghost operands = branch_views(children@);
                assert(self@->Expression_1 =~= operands);
                let mut s = String::from_str("(");
                s.append(tc.token.to_string().as_str());
                let ghost head = s@;
                let mut i: usize = 0;
                while i < children.len()
                    invariant
                        i <= children.len(),
                        operands == branch_views(children@),
                        s@ == head + BranchView::rpn_operands(operands, i as int),
                        *self matches Branch::Expression(_, c) && c == children,
                    decreases children.len() - i,
                {
                    if i == 0 {
                        s.append(": ");
                    } else {
                        s.append(", ");
                    }
                    let item = children[i].as_rpn_str();
                    s.append(item.as_str());
                    i = i + 1;
                }
                s.append(")");
                s
            },
        }
    }
}

/// The balance of the parentheses among the tokens at and behind `from`, when
/// `open` of them are open before: the first `)` that closes nothing is an
/// error, and so is what stays open at the end.
pub open spec fn paren_check(tokens: Seq<TokenContextView>, from: int, open: int) -> Result<
    (),
    ParsingErrorView,
>
    decreases tokens.len() - from,
{
    if 0 <= from < tokens.len() {
        let now = match tokens[from].token {
            TokenView::LP => open + 1,
            TokenView::RP => open - 1,
            _ => open,
        };
        if now < 0 {
            Err(ParsingErrorView::UnexpectedLP(tokens[from].at))
        } else {
            paren_check(tokens, from + 1, now)
        }
    } else if open == 0 {
        Ok(())
    } else if open > i32::MAX {
        Err(ParsingErrorView::MissingRP(i32::MAX))
    } else {
        Err(ParsingErrorView::MissingRP(open as i32))
    }
}

/// Why a token is not offered as an operation, if it is not.
pub open spec fn reserved_operation(t: TokenView) -> Option<Seq<char>> {
    match t {
        TokenView::AssignOp(x) => if x != AssignmentOperator::Assign {
            Some("Only simple assignment is allowed."@)
        } else {
            None
        },
        TokenView::LogicOp(_) => Some("Logical operators are not allowed."@),
        TokenView::RelOp(_) => Some("Comparison operators are not allowed."@),
        _ => None,
    }
}

/// The first token at or behind `from` that is reserved, as an error; none if
/// there is no such token.
pub open spec fn token_check(tokens: Seq<TokenContextView>, from: int) -> Result<
    (),
    ParsingErrorView,
>
    decreases tokens.len() - from,
{
    if 0 <= from < tokens.len() {
        match reserved_operation(tokens[from].token) {
            Some(why) => Err(ParsingErrorView::InvalidOperation(tokens[from].at, why)),
            None => token_check(tokens, from + 1),
        }
    } else {
        Ok(())
    }
}

/// Whether an answer without a value is what `expected` says.
pub open spec fn checks_as(
    r: Result<(), ParsingError>,
    expected: Result<(), ParsingErrorView>,
) -> bool {
    match expected {
        Ok(_) => r is Ok,
        Err(e) => r matches Err(x) && x@ == e,
    }
}

/// Checks that parentheses are balanced: none closes what is not open, and
/// none stays open at the end.
pub fn check_parens(tokens: &Vec<TokenContext>) -> (r: Result<(), ParsingError>)
    ensures
        checks_as(r, paren_check(views(tokens@), 0, 0)),
{
    let mut open: usize = 0;
    let mut i: usize = 0;
    while i < tokens.len()
        invariant
            i <= tokens.len(),
            open <= i,
            paren_check(views(tokens@), 0, 0) == paren_check(views(tokens@), i as int, open as int),
        decreases tokens.len() - i,
    {
        match tokens[i].token {
            Token::LP => {
                open = open + 1;
            },
            Token::RP => {
                if open == 0 {
                    return Err(ParsingError::UnexpectedLP(tokens[i].at));
                }
                open = open - 1;
            },
            _ => {},
        }
        i = i + 1;
    }
    if open == 0 {
        Ok(())
    } else if open > 0x7fff_ffff {
        Err(ParsingError::MissingRP(i32::MAX))
    } else {
        Err(ParsingError::MissingRP(open as i32))
    }
}

/// Checks that no token stands for an operation that is reserved but not
/// offered: a compound assignment, a logical or a relational operator.
pub fn check_tokens(tokens: &Vec<TokenContext>) -> (r: Result<(), ParsingError>)
    ensures
        checks_as(r, token_check(views(tokens@), 0)),
{
    let mut i: usize = 0;
    while i < tokens.len()
        invariant
            i <= tokens.len(),
            token_check(views(tokens@), 0) == token_check(views(tokens@), i as int),
        decreases tokens.len() - i,
    {
        match &tokens[i].token {
            Token::AssignOp(x) => {
                match x {
                    AssignmentOperator::Assign => {},
                    _ => {
                        return Err(
                            ParsingError::InvalidOperation(
                                tokens[i].at,
                                String::from_str("Only simple assignment is allowed."),
                            ),
                        );
                    },
                }
            },
            Token::LogicOp(_) => {
                return Err(
                    ParsingError::InvalidOperation(
                        tokens[i].at,
                        String::from_str("Logical operators are not allowed."),
                    ),
                );
            },
            Token::RelOp(_) => {
                return Err(
                    ParsingError::InvalidOperation(
                        tokens[i].at,
                        String::from_str("Comparison operators are not allowed."),
                    ),
                );
            },
            _ => {},
        }
        i = i + 1;
    }
    Ok(())
}

/// The tokens of an expression and, once they are parsed, its tree.
#[derive(Debug)]
pub struct AST {
    ts: TokenStream,
    pub tree: Option<Branch>,
}

impl AST {
    /// The tokens that the tree is made of.
    pub closed spec fn stream(self) -> TokenStream {
        self.ts
    }

    /// The tree, if the tokens have been parsed.
    pub closed spec fn parsed(self) -> Option<BranchView> {
        match self.tree {
            Some(b) => Some(b@),
            None => None,
        }
    }

    /// The tokens of an expression, not parsed yet.
    pub fn new(ts: TokenStream) -> (r: Self)
        ensures
            r.stream() == ts,
            r.parsed() is None,
    {
        Self { ts, tree: None }
    }

    /// Takes new tokens and forgets the tree, unless the new tokens are those
    /// it holds already.
    pub fn update_tokens(&mut self, new_ts: TokenStream)
        ensures
            same_tokens(old(self).stream().all(), new_ts.all()) ==> *final(self) == *old(self),
            !same_tokens(old(self).stream().all(), new_ts.all()) ==> final(self).stream() == new_ts
                && final(self).parsed() is None,
    {
        if self.ts.identical(&new_ts) {
            return ;
        }
        self.ts = new_ts;
        self.tree = None;
    }

    /// What parsing the tokens of a stream yields: the first fault of the
    /// parentheses, else the first reserved operation, else the tree of the
    /// tokens not handed out yet, or the error of building it.
    pub open spec fn outcome(ts: TokenStream) -> Result<BranchView, ParsingErrorView> {
        match paren_check(ts.all(), 0, 0) {
            Err(e) => Err(e),
            Ok(_) => match token_check(ts.all(), 0) {
                Err(e) => Err(e),
                Ok(_) => match parse_expr(ts.rest(), ts.end(), 0) {
                    Ok((tree, _)) => Ok(tree),
                    Err(e) => Err(e),
                },
            },
        }
    }

    /// Parses the tokens. On success the tree is kept; on an error it stays
    /// as it was.
    pub fn parse_tokens(&mut self) -> (r: Result<(), ParsingError>)
        ensures
            match Self::outcome(old(self).stream()) {
                Ok(tree) => r is Ok && final(self).parsed() == Some(tree) && tree.well_formed(),
                Err(e) => r matches Err(x) && x@ == e
                    && final(self).parsed() == old(self).parsed(),
            },
            final(self).stream().all() == old(self).stream().all(),
            final(self).stream().end() == old(self).stream().end(),
            final(self).stream().source() == old(self).stream().source(),
    {
        if let Err(e) = check_parens(self.ts.all_tokens()) {
            return Err(e);
        }
        if let Err(e) = check_tokens(self.ts.all_tokens()) {
            return Err(e);
        }
        match parse_tokenstream(&mut self.ts) {
            Err(e) => Err(e),
            Ok(branch) => {
                self.tree = Some(branch);
                Ok(())
            },
        }
    }

    /// Gives the tree away, if there is one.
    pub fn take_tree(self) -> (r: Option<Branch>)
        ensures
            match self.parsed() {
                Some(t) => r matches Some(b) && b@ == t,
                None => r is None,
            },
    {
        self.tree
    }

    /// The tree in prefix form; the empty text if there is no tree.
    pub fn rpn_repr(&self) -> (r: String)
        ensures
            r@ == match self.parsed() {
                Some(t) => t.rpn(),
                None => Seq::empty(),
            },
    {
        match &self.tree {
            Some(t) => t.as_rpn_str(),
            None => String::new(),
        }
    }
}

/// A tree as a graph: its nodes numbered in the order in which a walk from
/// the root meets them, each operator before its operands, and for every node
/// the number of the node above it. The root is its own parent.
#[derive(Debug)]
pub struct FlatAst {
    nodes: HashMap<u8, TokenContext>,
    edges: HashMap<u8, u8>,
    node_id: u8,
}

/// A [`FlatAst`] as a mathematical value.
pub struct FlatAstView {
    /// The token of each node.
    pub nodes: Map<u8, TokenContextView>,
    /// The parent of each node.
    pub edges: Map<u8, u8>,
    /// The number that the next node gets.
    pub next: u8,
}

impl View for FlatAst {
    type V = FlatAstView;

    closed spec fn view(&self) -> FlatAstView {
        FlatAstView {
            nodes: Map::new(|k: u8| self.nodes@.contains_key(k), |k: u8| self.nodes@[k]@),
            edges: self.edges@,
            next: self.node_id,
        }
    }
}

impl FlatAstView {
    /// The graph without a node.
    pub open spec fn empty() -> FlatAstView {
        FlatAstView { nodes: Map::empty(), edges: Map::empty(), next: 0 }
    }

    /// The graph with one node more, under `parent`; none if the numbers of 8
    /// bits do not suffice for the node and the number after it.
    pub open spec fn with_node(self, tc: TokenContextView, parent: u8) -> Option<FlatAstView> {
        if self.next < 255 {
            Some(
                FlatAstView {
                    nodes: self.nodes.insert(self.next, tc),
                    edges: self.edges.insert(self.next, parent),
                    next: (self.next + 1) as u8,
                },
            )
        } else {
            None
        }
    }

    /// The graph with the nodes of a tree added under `parent`.
    pub open spec fn with_tree(self, tree: BranchView, parent: u8) -> Option<FlatAstView>
        decreases tree, 0nat,
    {
        match self.with_node(tree.head(), parent) {
            Some(s) => match tree {
                BranchView::Atom(_) => Some(s),
                BranchView::Expression(_, children) => s.with_trees(children, self.next, 0),
            },
            None => None,
        }
    }

    /// The graph with the nodes of the trees at and behind `from` added under
    /// `parent`.
    pub open spec fn with_trees(self, children: Seq<BranchView>, parent: u8, from: int) -> Option<
        FlatAstView,
    >
        decreases children, children.len() - from,
    {
        if 0 <= from < children.len() {
            match self.with_tree(children[from], parent) {
                Some(s) => s.with_trees(children, parent, from + 1),
                None => None,
            }
        } else {
            Some(self)
        }
    }
}

impl FlatAst {
    fn new() -> (r: Self)
        ensures
            r@ == FlatAstView::empty(),
    {
        broadcast use vstd::std_specs::hash::group_hash_axioms;

        let r = Self { nodes: HashMap::new(), edges: HashMap::new(), node_id: 0 };
        assert(r@.nodes =~= Map::empty());
        r
    }

    /// Adds a node under `parent` and hands out its number.
    fn add_node(&mut self, tc: TokenContext, parent: u8) -> (r: Option<u8>)
        ensures
            match old(self)@.with_node(tc@, parent) {
                Some(s) => r == Some(old(self)@.next) && final(self)@ == s,
                None => r is None,
            },
    {
        broadcast use vstd::std_specs::hash::group_hash_axioms;

        let id = self.node_id;
        if id == 255 {
            return None;
        }
        self.nodes.insert(id, tc);
        self.node_id = id + 1;
        self.add_edge(parent, id);
        assert(self@.nodes =~= old(self)@.nodes.insert(id, tc@));
        Some(id)
    }

    /// Notes that the node `arg` stands under the node `op`.
    fn add_edge(&mut self, op: u8, arg: u8)
        ensures
            final(self)@ == (FlatAstView { edges: old(self)@.edges.insert(arg, op), ..old(self)@ }),
    {
        broadcast use vstd::std_specs::hash::group_hash_axioms;

        self.edges.insert(arg, op);
        assert(self@.nodes =~= old(self)@.nodes);
    }

    /// The number of nodes.
    pub fn len(&self) -> (r: u8)
        ensures
            r == self@.next,
    {
        self.node_id
    }

    /// The token of a node, if there is such a node.
    pub fn node(&self, id: u8) -> (r: Option<&TokenContext>)
        ensures
            match r {
                Some(tc) => self@.nodes.contains_key(id) && self@.nodes[id] == tc@,
                None => !self@.nodes.contains_key(id),
            },
    {
        broadcast use vstd::std_specs::hash::group_hash_axioms;

        self.nodes.get(&id)
    }

    /// The parent of a node, if there is such a node.
    pub fn parent(&self, id: u8) -> (r: Option<u8>)
        ensures
            match r {
                Some(p) => self@.edges.contains_key(id) && self@.edges[id] == p,
                None => !self@.edges.contains_key(id),
            },
    {
        broadcast use vstd::std_specs::hash::group_hash_axioms;

        match self.edges.get(&id) {
            Some(p) => Some(*p),
            None => None,
        }
    }
}

/// Adds the nodes of a tree to a graph, under the node `parent`; tells whether
/// the numbers sufficed.
pub fn traverse_ast(branch: &Branch, ast: &mut FlatAst, parent: u8) -> (r: bool)
    ensures
        match old(ast)@.with_tree(branch@, parent) {
            Some(s) => r && final(ast)@ == s,
            None => !r,
        },
    decreases branch,
{
    proof {
        reveal_with_fuel(<Branch as View>::view, 2);
    }
    match branch {
        Branch::Atom(tc) => ast.add_node(tc.clone(), parent).is_some(),
        Branch::Expression(tc, args) => {
            let ghost operands = branch_views(args@);
            assert(branch@->Expression_1 =~= operands);
            let id = match ast.add_node(tc.clone(), parent) {
                Some(id) => id,
                None => {
                    return false;
                },
            };
            let ghost goal = ast@.with_trees(operands, id, 0);
            let mut i: usize = 0;
            while i < args.len()
                invariant
                    i <= args.len(),
                    operands == branch_views(args@),
                    goal == old(ast)@.with_tree(branch@, parent),
                    goal == ast@.with_trees(operands, id, i as int),
                    *branch matches Branch::Expression(_, c) && c == args,
                decreases args.len() - i,
            {
                if !traverse_ast(&args[i], ast, id) {
                    return false;
                }
                i = i + 1;
            }
            true
        },
    }
}

impl AST {
    /// The tree as a graph; none if there is no tree, or if it has more nodes
    /// than the graph can number.
    pub fn flatten_ast(&self) -> (r: Option<FlatAst>)
        ensures
            match self.parsed() {
                Some(tree) => match FlatAstView::empty().with_tree(tree, 0) {
                    Some(s) => r matches Some(g) && g@ == s,
                    None => r is None,
                },
                None => r is None,
            },
    {
        let mut ast = FlatAst::new();
        match &self.tree {
            None => None,
            Some(branch) => {
                if traverse_ast(branch, &mut ast, 0) {
                    Some(ast)
                } else {
                    None
                }
            },
        }
    }
}

/// The colours that parentheses are shown in.
#[derive(Debug, PartialEq, Eq, Clone, Copy, Structural)]
pub enum ParenColor {
    Red,
    Green,
    Blue,
    Magenta,
    Yellow,
    Cyan,
    Black,
}

/// The colour of a parenthesis at a depth of nesting: the colours take turns
/// with the depth, seven of them. Below the depth 0, where a text closes more
/// than it opens, the colour is black, but red at every seventh depth.
pub open spec fn paren_color(depth: int) -> ParenColor {
    if depth >= 0 {
        if depth % 7 == 0 {
            ParenColor::Red
        } else if depth % 7 == 1 {
            ParenColor::Green
        } else if depth % 7 == 2 {
            ParenColor::Blue
        } else if depth % 7 == 3 {
            ParenColor::Magenta
        } else if depth % 7 == 4 {
            ParenColor::Yellow
        } else if depth % 7 == 5 {
            ParenColor::Cyan
        } else {
            ParenColor::Black
        }
    } else if (-depth) % 7 == 0 {
        ParenColor::Red
    } else {
        ParenColor::Black
    }
}

/// The characters of a text from `from` on, each parenthesis with the colour
/// of its depth and every other character without one. `depth` is the depth
/// before `from`. A closing parenthesis has the colour of the one it closes.
pub open spec fn painted(s: Seq<char>, from: int, depth: int) -> Seq<(char, Option<ParenColor>)>
    decreases s.len() - from,
{
    if 0 <= from < s.len() {
        if s[from] == '(' {
            seq![(s[from], Some(paren_color(depth)))] + painted(s, from + 1, depth + 1)
        } else if s[from] == ')' {
            seq![(s[from], Some(paren_color(depth - 1)))] + painted(s, from + 1, depth - 1)
        } else {
            seq![(s[from], None)] + painted(s, from + 1, depth)
        }
    } else {
        Seq::empty()
    }
}

fn color_at(depth: i128) -> (r: ParenColor)
    requires
        depth > i128::MIN,
    ensures
        r == paren_color(depth as int),
{
    if depth >= 0 {
        let m = depth % 7;
        if m == 0 {
            ParenColor::Red
        } else if m == 1 {
            ParenColor::Green
        } else if m == 2 {
            ParenColor::Blue
        } else if m == 3 {
            ParenColor::Magenta
        } else if m == 4 {
            ParenColor::Yellow
        } else if m == 5 {
            ParenColor::Cyan
        } else {
            ParenColor::Black
        }
    } else if (-depth) % 7 == 0 {
        ParenColor::Red
    } else {
        ParenColor::Black
    }
}

/// The colour of a parenthesis at a depth of nesting.
pub fn get_paren_color(i: i32) -> (r: ParenColor)
    ensures
        r == paren_color(i as int),
{
    color_at(i as i128)
}

/// The characters of a text of trees in prefix form, each parenthesis with
/// the colour of its depth.
pub fn paint_parens(s: &str) -> (r: Vec<(char, Option<ParenColor>)>)
    ensures
        r@ == painted(s@, 0, 0),
{
    let chars = chars_of(s);
    let ghost goal = painted(chars@, 0, 0);
    let mut out: Vec<(char, Option<ParenColor>)> = Vec::new();
    let mut depth: i128 = 0;
    let mut i: usize = 0;
    assert(out@ + goal =~= goal);
    while i < chars.len()
        invariant
            i <= chars.len(),
            chars@ == s@,
            -(i as int) <= depth <= i,
            goal == painted(s@, 0, 0),
            goal == out@ + painted(chars@, i as int, depth as int),
        decreases chars.len() - i,
    {
        let ghost before = out@;
        let c = chars[i];
        let item = if c == '(' {
            let item = (c, Some(color_at(depth)));
            depth = depth + 1;
            item
        } else if c == ')' {
            depth = depth - 1;
            (c, Some(color_at(depth)))
        } else {
            (c, None)
        };
        out.push(item);
        i = i + 1;
        assert(before + (seq![item] + painted(chars@, i as int, depth as int)) =~= before.push(item)
            + painted(chars@, i as int, depth as int));
    }
    assert(out@ + Seq::<(char, Option<ParenColor>)>::empty() =~= out@);
    out
}

/// The number of a colour in the escape sequences of a terminal.
pub open spec fn color_code(color: ParenColor) -> Seq<char> {
    match color {
        ParenColor::Black => "30"@,
        ParenColor::Red => "31"@,
        ParenColor::Green => "32"@,
        ParenColor::Yellow => "33"@,
        ParenColor::Blue => "34"@,
        ParenColor::Magenta => "35"@,
        ParenColor::Cyan => "36"@,
    }
}

/// A character between the escape sequences that switch a colour on and all
/// colours off.
pub open spec fn in_color(c: char, color: ParenColor) -> Seq<char> {
    "\u{1b}["@ + color_code(color) + "m"@ + seq![c] + "\u{1b}[0m"@
}

/// What a character may be shown as: itself, if it has no colour; with a
/// colour either itself, where colours are switched off, or the character
/// between the escape sequences of the colour.
pub open spec fn shows(text: Seq<char>, c: char, paint: Option<ParenColor>) -> bool {
    match paint {
        Some(color) => text == seq![c] || text == in_color(c, color),
        None => text == seq![c],
    }
}

/// Calls `colored::Colorize::color` on the character as a text, and writes
/// the coloured text out. Trusted: the result is the character alone where
/// colours are switched off for the process, and else the character between
/// the escape sequence of the colour and the one that resets all colours. Which
/// of the two it is, is not claimed: it hangs on the terminal and on the
/// variables that the process was started with.
#[verifier::external_body]
fn paint(c: char, color: ParenColor) -> (r: String)
    ensures
        r@ == seq![c] || r@ == in_color(c, color),
{
    let color = match color {
        ParenColor::Red => Color::Red,
        ParenColor::Green => Color::Green,
        ParenColor::Blue => Color::Blue,
        ParenColor::Magenta => Color::Magenta,
        ParenColor::Yellow => Color::Yellow,
        ParenColor::Cyan => Color::Cyan,
        ParenColor::Black => Color::Black,
    };
    c.to_string().as_str().color(color).to_string()
}

impl Branch {
    /// The tree in prefix form, character by character, each parenthesis with
    /// the colour of its depth.
    pub fn rpn_colors(&self) -> (r: Vec<(char, Option<ParenColor>)>)
        ensures
            r@ == painted(self@.rpn(), 0, 0),
    {
        let s = self.as_rpn_str();
        paint_parens(s.as_str())
    }

    /// The tree in prefix form as pieces of text for a terminal, one for each
    /// character: a parenthesis in the colour of its depth, unless colours are
    /// switched off, and every other character as it is.
    pub fn rpn_colored(&self) -> (r: Vec<String>)
        ensures
            r@.len() == painted(self@.rpn(), 0, 0).len(),
            forall|i: int|
                0 <= i < r@.len() ==> shows(
                    (#[trigger] r@[i])@,
                    painted(self@.rpn(), 0, 0)[i].0,
                    painted(self@.rpn(), 0, 0)[i].1,
                ),
    {
        let plan = self.rpn_colors();
        let mut pieces: Vec<String> = Vec::new();
        let mut i: usize = 0;
        while i < plan.len()
            invariant
                i <= plan@.len(),
                pieces@.len() == i,
                forall|k: int|
                    0 <= k < i ==> shows((#[trigger] pieces@[k])@, plan@[k].0, plan@[k].1),
            decreases plan@.len() - i,
        {
            let (c, color) = plan[i];
            let piece = match color {
                Some(color) => paint(c, color),
                None => {
                    let mut plain = String::new();
                    push_char(&mut plain, c);
                    assert(plain@ =~= seq![c]);
                    plain
                },
            };
            pieces.push(piece);
            i = i + 1;
        }
        pieces
    }
}

/// The tree of an expression over the inputs `vars`, or the first error: of
/// the scan, of the checks before parsing, or of parsing.
pub open spec fn tree_of(src: Seq<char>, vars: Seq<Seq<char>>) -> Result<
    BranchView,
    DymexErrorView,
> {
    match lex(src, vars) {
        Err(e) => Err(DymexErrorView::LexicalError(e)),
        Ok(tokens) => match paren_check(tokens, 0, 0) {
            Err(e) => Err(DymexErrorView::ParsingError(e)),
            Ok(_) => match token_check(tokens, 0) {
                Err(e) => Err(DymexErrorView::ParsingError(e)),
                Ok(_) => match parse_expr(tokens, byte_len(src) as usize, 0) {
                    Err(e) => Err(DymexErrorView::ParsingError(e)),
                    Ok((tree, _)) => Ok(tree),
                },
            },
        },
    }
}

/// Scans and parses an expression over the inputs named by `variables`.
pub fn parse_source(expression: &str, variables: &[&str]) -> (r: Result<AST, DymexError>)
    ensures
        match tree_of(expression@, names(variables@)) {
            Ok(tree) => r matches Ok(ast) && ast.parsed() == Some(tree) && tree.well_formed(),
            Err(e) => r matches Err(x) && x@ == e,
        },
{
    let mut ts = TokenStream::new();
    if let Err(e) = ts.update(expression, variables) {
        return Err(DymexError::LexicalError(e));
    }
    let mut ast = AST::new(ts);
    if let Err(e) = ast.parse_tokens() {
        return Err(DymexError::ParsingError(e));
    }
    Ok(ast)
}

proof fn lemma_blank_scan(src: Seq<char>, pos: int, vars: Seq<Seq<char>>, after_dot: bool)
    requires
        0 <= pos <= src.len(),
        forall|i: int| 0 <= i < src.len() ==> crate::text::whitespace(#[trigger] src[i]),
    ensures
        crate::tokenizer::lexer::scan(src, pos, vars, after_dot) == Ok::<
            Seq<TokenContextView>,
            crate::tokenizer::error::TokenizerErrorView,
        >(Seq::empty()),
    decreases src.len() - pos,
{
    if pos < src.len() {
        lemma_blank_scan(src, pos + 1, vars, after_dot);
    }
}

/// An expression of nothing but white space has no tree: where no input name
/// is reserved and no character invalid, it is a parsing error at its end,
/// found before anything is evaluated.
pub proof fn lemma_blank_expression(src: Seq<char>, vars: Seq<Seq<char>>)
    requires
        forall|i: int| 0 <= i < src.len() ==> crate::text::whitespace(#[trigger] src[i]),
        crate::tokenizer::lexer::reserved_input(vars, 0) is None,
        crate::tokenizer::lexer::illegal_character(src, 0) is None,
    ensures
        tree_of(src, vars) == Err::<BranchView, DymexErrorView>(
            DymexErrorView::ParsingError(ParsingErrorView::UnexpectedToken(byte_len(src) as usize)),
        ),
{
    lemma_blank_scan(src, 0, vars, false);
}

/// The empty expression has no tree: it is a parsing error, whatever the
/// inputs, unless an input's name is reserved.
pub proof fn lemma_empty_expression(vars: Seq<Seq<char>>)
    requires
        crate::tokenizer::lexer::reserved_input(vars, 0) is None,
    ensures
        tree_of(Seq::empty(), vars) == Err::<BranchView, DymexErrorView>(
            DymexErrorView::ParsingError(ParsingErrorView::UnexpectedToken(0)),
        ),
{
    assert(crate::tokenizer::lexer::illegal_character(Seq::empty(), 0) is None) by {
        lemma_no_illegal_in_empty(0);
    }
    lemma_blank_expression(Seq::empty(), vars);
}

proof fn lemma_no_illegal_in_empty(k: int)
    requires
        0 <= k,
    ensures
        crate::tokenizer::lexer::illegal_character(Seq::empty(), k) is None,
    decreases crate::tokenizer::lexer::invalid_chars().len() - k,
{
    if k < crate::tokenizer::lexer::invalid_chars().len() {
        lemma_no_illegal_in_empty(k + 1);
    }
}

/// Whether every tree of a sequence is well formed.
pub open spec fn all_well_formed(trees: Seq<BranchView>) -> bool {
    forall|i: int| 0 <= i < trees.len() ==> (#[trigger] trees[i]).well_formed()
}

/// An operand that is read takes at least one token and is a well-formed
/// tree.
pub proof fn lemma_operand_consumes(rest: Seq<TokenContextView>, end: usize)
    ensures
        parse_operand(rest, end) matches Ok((tree, left)) ==> left.len() < rest.len()
            && tree.well_formed(),
    decreases rest.len(), 0nat,
{
    let next = first(rest, end);
    let rest1 = tail(rest);
    match next.token {
        TokenView::Var(_) | TokenView::Const(_) | TokenView::Number(_) => {},
        TokenView::LP => {
            lemma_expression_consumes(rest1, end, 0);
        },
        TokenView::Func(_, max_args) => {
            let rest2 = tail(rest1);
            if first(rest1, end).token is LP && !(first(rest2, end).token is RP) {
                lemma_arguments_consume(rest2, end, Seq::empty());
            }
        },
        _ => {
            if let Some((_, r_bp)) = prefix_power(next.token) {
                lemma_expression_consumes(rest1, end, r_bp);
            }
        },
    }
}

/// Operators that are read behind a well-formed operand make a well-formed
/// tree, and no token comes back.
pub proof fn lemma_operators_consume(
    rest: Seq<TokenContextView>,
    end: usize,
    lhs: BranchView,
    min_bp: usize,
)
    requires
        lhs.well_formed(),
    ensures
        parse_operators(rest, end, lhs, min_bp) matches Ok((tree, left)) ==> left.len()
            <= rest.len() && tree.well_formed(),
    decreases rest.len(), 1nat,
{
    let peeked = first(rest, end);
    let rest1 = tail(rest);
    if peeked.token is Eof || peeked.token.is_atom() {
    } else if let Some((l_bp, _)) = postfix_power(peeked.token) {
        if l_bp >= min_bp {
            lemma_expression_consumes(rest1, end, 0);
            if let Ok((rhs, rest2)) = parse_expr(rest1, end, 0) {
                if first(rest2, end).token is RB {
                    lemma_operators_consume(
                        tail(rest2),
                        end,
                        BranchView::Expression(peeked, seq![lhs, rhs]),
                        min_bp,
                    );
                }
            }
        }
    } else if let Some((l_bp, r_bp)) = infix_power(peeked.token) {
        if l_bp >= min_bp && peeked.token is Dot {
            let name = first(rest1, end);
            if name.token is Var && tail(rest1).len() < rest.len() {
                assert(BranchView::Atom(name).well_formed());
                lemma_operators_consume(
                    tail(rest1),
                    end,
                    BranchView::Expression(peeked, seq![lhs, BranchView::Atom(name)]),
                    min_bp,
                );
            }
        } else if l_bp >= min_bp {
            lemma_expression_consumes(rest1, end, r_bp);
            if let Ok((rhs, rest2)) = parse_expr(rest1, end, r_bp) {
                lemma_operators_consume(
                    rest2,
                    end,
                    BranchView::Expression(peeked, seq![lhs, rhs]),
                    min_bp,
                );
            }
        }
    }
}

/// An expression that is read takes at least one token, and its tree is well
/// formed: every operator in it has a number of operands that fits it.
pub proof fn lemma_expression_consumes(rest: Seq<TokenContextView>, end: usize, min_bp: usize)
    ensures
        parse_expr(rest, end, min_bp) matches Ok((tree, left)) ==> left.len() < rest.len()
            && tree.well_formed(),
    decreases rest.len(), 2nat,
{
    lemma_operand_consumes(rest, end);
    if let Ok((lhs, rest1)) = parse_operand(rest, end) {
        lemma_operators_consume(rest1, end, lhs, min_bp);
    }
}

/// The arguments of a call that are read take at least one token; there is at
/// least one of them, and each is well formed.
pub proof fn lemma_arguments_consume(
    rest: Seq<TokenContextView>,
    end: usize,
    done: Seq<BranchView>,
)
    requires
        all_well_formed(done),
    ensures
        parse_args(rest, end, done) matches Ok((args, left)) ==> left.len() < rest.len()
            && args.len() > done.len() && all_well_formed(args),
    decreases rest.len(), 3nat,
{
    lemma_expression_consumes(rest, end, 0);
    if let Ok((arg, rest1)) = parse_expr(rest, end, 0) {
        if first(rest1, end).token is Comma {
            lemma_arguments_consume(tail(rest1), end, done.push(arg));
        }
    }
}

/// The tree of any expression is well formed: every leaf is a number, a
/// constant or an input name, and every operator has a number of operands
/// that fits it.
pub proof fn lemma_tree_well_formed(src: Seq<char>, vars: Seq<Seq<char>>)
    ensures
        tree_of(src, vars) matches Ok(tree) ==> tree.well_formed(),
{
    if let Ok(tokens) = lex(src, vars) {
        lemma_expression_consumes(tokens, byte_len(src) as usize, 0);
    }
}

} // verus!
