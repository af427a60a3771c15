//! A small engine for arithmetic expressions over named inputs: the scanner,
//! the precedence parser, the flattened program and the dispatch rules of its
//! evaluation.
//!
//! An expression is compiled once, by [`Evaluator::new`], and evaluated as
//! often as needed. The engine decides what is computed and in which order;
//! the arithmetic on numbers itself is asked of the caller, request by
//! request: step by step with [`Evaluator::evaluate`] and
//! [`Evaluator::resume`], or at once with [`Evaluator::evaluate_with`], which
//! takes the arithmetic unit as a function. Whatever the unit computes, the
//! value of an expression is the value of its tree: the operator at the root
//! on the values of its operands, down to the numbers and the inputs.

pub mod dynmath;
pub mod error;
pub mod mermaid;
pub mod parser;
pub mod text;
pub mod tokenizer;

pub use crate::dynmath::eval::{
    complete, decide, flatten_tree, Evaluand, Evaluator, IdGenerator, Plan, Step,
};
pub use crate::dynmath::{
    all_scalars, dynmath_avg, dynmath_l1, dynmath_l2, dynmath_max, dynmath_min, dynmath_range,
    dynmath_std, dynmath_sum, invalid_args_err, reduction, resolve_index, unbox_numbers, Answer,
    Category, EvaluationError, Mapping, Reduction, Request, Value, MAXDIM,
};
pub use crate::error::{DymexError, UserMessage};
pub use crate::mermaid::MermaidGraph;
pub use crate::parser::{
    check_parens, check_tokens, infix_precedence, parse_tokenstream, postfix_precedence,
    pratt_parser, prefix_precedence, Branch, ParsingError, AST,
};
pub use crate::tokenizer::error::TokenizerError;
pub use crate::tokenizer::lexer::{
    check_illegal_characters, check_input_variables, classify, constant_of, function_of,
    ident_char_given, is_ident_char, parse_const, parse_double_char_token, parse_function, parse_identifier,
    parse_number, parse_single_char_token, parse_special_characters, parse_variable, tokenize,
    word_token, LexemeClass, TokenStream,
};
pub use crate::tokenizer::number::NumberLiteral;
pub use crate::tokenizer::token::{
    ArithmeticOperator, AssignmentOperator, Constant, Function, LogicalOperator,
    RelationalOperator, Token, TokenContext,
};
