//! The errors of compiling an expression, and what is said to the user about
//! them.

use vstd::prelude::*;
use vstd::string::StringExecFns;
use crate::parser::{ParsingError, ParsingErrorView};
use crate::text::{chars_of, column, column_of, push_char};
use crate::tokenizer::error::{TokenizerError, TokenizerErrorView};

verus! {

/// Names that inputs may and may not have.
pub const VARNAME_EXAMPLES: &'static str =
    "Valid: a, \u{3d5}0, _mass, phase_x_2_, e0_\u{3c0}2, ...\n Invalid: \u{3c0}, e, 1a, 1_b, ... ";

/// The characters that no expression may hold.
pub const INVALID_CHAR_HINT: &'static str =
    "The following charaters are invalid: #?\u{2dd}`'&|$@%{}";

/// The forms in which numbers are written.
pub const NUMBER_HINT: &'static str =
    "Valid formats are: 1, 3.14, 1e-10, 1.23E10, 1_000_000";

/// What is said to the user about an error: a message, the position in the
/// expression that it is about, a hint and examples.
#[derive(Debug)]
pub struct UserMessage {
    msg: String,
    cursor: Option<usize>,
    hint: Option<&'static str>,
    examples: Option<&'static str>,
}

/// A [`UserMessage`] as a mathematical value.
pub struct UserMessageView {
    pub msg: Seq<char>,
    pub cursor: Option<usize>,
    pub hint: Option<Seq<char>>,
    pub examples: Option<Seq<char>>,
}

/// The characters of a text that may be absent.
pub open spec fn text_of(s: Option<&'static str>) -> Option<Seq<char>> {
    match s {
        Some(t) => Some(t@),
        None => None,
    }
}

impl View for UserMessage {
    type V = UserMessageView;

    closed spec fn view(&self) -> UserMessageView {
        UserMessageView {
            msg: self.msg@,
            cursor: self.cursor,
            hint: text_of(self.hint),
            examples: text_of(self.examples),
        }
    }
}

/// `n` spaces.
pub open spec fn spaces(n: nat) -> Seq<char> {
    Seq::new(n, |i: int| ' ')
}

impl UserMessageView {
    /// The message as one line.
    pub open spec fn line(self) -> Seq<char> {
        self.msg + "\n"@
    }

    /// The message in full: the message, the expression, a caret under the
    /// character that the message is about, and the hint, each on a line of its
    /// own and each only if there is one. The position is a byte offset into
    /// the expression; the caret stands in the column of the character that
    /// begins there.
    pub open spec fn full(self, expression: Seq<char>) -> Seq<char> {
        self.msg + "\n"@ + expression + "\n"@ + (match self.cursor {
            Some(at) => spaces(column_of(expression, at as int) as nat) + "^\n"@,
            None => Seq::empty(),
        }) + (match self.hint {
            Some(hint) => hint + "\n"@,
            None => Seq::empty(),
        })
    }
}

impl UserMessage {
    /// The message with its parts.
    pub fn new(
        message: String,
        cursor: Option<usize>,
        hint: Option<&'static str>,
        examples: Option<&'static str>,
    ) -> (r: Self)
        ensures
            r@ == (UserMessageView {
                msg: message@,
                cursor,
                hint: text_of(hint),
                examples: text_of(examples),
            }),
    {
        Self { msg: message, cursor, hint, examples }
    }

    /// The message in full, with the expression and a caret under the
    /// character that the message is about.
    pub fn full_message(&self, expression: &str) -> (r: String)
        ensures
            r@ == self@.full(expression@),
    {
        let mut msg = self.msg.clone();
        msg.append("\n");
        msg.append(expression);
        msg.append("\n");
        let ghost head = msg@;
        if let Some(at) = self.cursor {
            let chars = chars_of(expression);
            let cursor = column(chars.as_slice(), at);
            let mut i: usize = 0;
            while i < cursor
                invariant
                    i <= cursor,
                    msg@ == head + spaces(i as nat),
                decreases cursor - i,
            {
                push_char(&mut msg, ' ');
                i = i + 1;
                assert(msg@ =~= head + spaces(i as nat));
            }
            msg.append("^\n");
        } else {
            assert(msg@ =~= head + Seq::<char>::empty());
        }
        let ghost body = msg@;
        if let Some(hint) = self.hint {
            msg.append(hint);
            msg.append("\n");
            assert(msg@ =~= body + (hint@ + "\n"@));
        } else {
            assert(msg@ =~= body + Seq::<char>::empty());
        }
        msg
    }

    /// The message as one line.
    pub fn to_string(&self) -> (r: String)
        ensures
            r@ == self@.line(),
    {
        let mut msg = self.msg.clone();
        msg.append("\n");
        msg
    }
}

impl TokenizerErrorView {
    /// What is said to the user about the error.
    pub open spec fn message(self) -> UserMessageView {
        match self {
            TokenizerErrorView::SyntaxError(i) => UserMessageView {
                msg: "Syntax error:"@,
                cursor: Some(i),
                hint: None,
                examples: None,
            },
            TokenizerErrorView::InvalidCharacter(c, i) => UserMessageView {
                msg: "Invalid character: "@.push(c),
                cursor: Some(i),
                hint: Some(INVALID_CHAR_HINT@),
                examples: None,
            },
            TokenizerErrorView::InvalidNumberFormat(i) => UserMessageView {
                msg: "Invalid number formatting:"@,
                cursor: Some(i),
                hint: Some(NUMBER_HINT@),
                examples: None,
            },
            TokenizerErrorView::UndefinedVariable(i, name) => UserMessageView {
                msg: "Undefined variable: "@ + name,
                cursor: Some(i),
                hint: None,
                examples: None,
            },
            TokenizerErrorView::InvalidVariableName(name, hint) => UserMessageView {
                msg: "Invalid variable name: "@ + name,
                cursor: None,
                hint: Some(hint),
                examples: Some(VARNAME_EXAMPLES@),
            },
        }
    }
}

impl TokenizerError {
    /// What is said to the user about the error.
    pub fn user_message(&self) -> (r: UserMessage)
        ensures
            r@ == self@.message(),
    {
        match self {
            TokenizerError::SyntaxError(i) => UserMessage::new(
                String::from_str("Syntax error:"),
                Some(*i),
                None,
                None,
            ),
            TokenizerError::InvalidCharacter(c, i) => {
                let mut msg = String::from_str("Invalid character: ");
                push_char(&mut msg, *c);
                UserMessage::new(msg, Some(*i), Some(INVALID_CHAR_HINT), None)
            },
            TokenizerError::InvalidNumberFormat(i) => UserMessage::new(
                String::from_str("Invalid number formatting:"),
                Some(*i),
                Some(NUMBER_HINT),
                None,
            ),
            TokenizerError::UndefinedVariable(i, name) => {
                let mut msg = String::from_str("Undefined variable: ");
                msg.append(name.as_str());
                UserMessage::new(msg, Some(*i), None, None)
            },
            TokenizerError::InvalidVariableName(varname, hint) => {
                let mut msg = String::from_str("Invalid variable name: ");
                msg.append(varname.as_str());
                UserMessage::new(msg, None, Some(*hint), Some(VARNAME_EXAMPLES))
            },
        }
    }
}

impl ParsingErrorView {
    /// What is said to the user about the error.
    pub open spec fn message(self) -> UserMessageView {
        match self {
            ParsingErrorView::UnexpectedToken(i) => UserMessageView {
                msg: "Unexpected token:"@,
                cursor: Some(i),
                hint: None,
                examples: None,
            },
            ParsingErrorView::UnexpectedLP(i) => UserMessageView {
                msg: "Unexpected closing parenthesis:"@,
                cursor: Some(i),
                hint: None,
                examples: None,
            },
            ParsingErrorView::MissingRP(_) => UserMessageView {
                msg: "Missing closing parenthesis."@,
                cursor: None,
                hint: None,
                examples: None,
            },
            ParsingErrorView::MissingArgument(i) => UserMessageView {
                msg: "Missing argument:"@,
                cursor: Some(i),
                hint: None,
                examples: None,
            },
            ParsingErrorView::TooManyArguments(i) => UserMessageView {
                msg: "Too many arguments:"@,
                cursor: Some(i),
                hint: None,
                examples: None,
            },
            ParsingErrorView::InvalidOperation(i, details) => UserMessageView {
                msg: "Invalid operation: "@ + details,
                cursor: Some(i),
                hint: None,
                examples: None,
            },
            ParsingErrorView::NotImplemented(what) => UserMessageView {
                msg: "Not implemented: "@ + what,
                cursor: None,
                hint: None,
                examples: None,
            },
        }
    }
}

impl ParsingError {
    /// What is said to the user about the error.
    pub fn user_message(&self) -> (r: UserMessage)
        ensures
            r@ == self@.message(),
    {
        match self {
            ParsingError::UnexpectedToken(i) => UserMessage::new(
                String::from_str("Unexpected token:"),
                Some(*i),
                None,
                None,
            ),
            ParsingError::UnexpectedLP(i) => UserMessage::new(
                String::from_str("Unexpected closing parenthesis:"),
                Some(*i),
                None,
                None,
            ),
            ParsingError::MissingRP(_) => UserMessage::new(
                String::from_str("Missing closing parenthesis."),
                None,
                None,
                None,
            ),
            ParsingError::MissingArgument(i) => UserMessage::new(
                String::from_str("Missing argument:"),
                Some(*i),
                None,
                None,
            ),
            ParsingError::TooManyArguments(i) => UserMessage::new(
                String::from_str("Too many arguments:"),
                Some(*i),
                None,
                None,
            ),
            ParsingError::InvalidOperation(i, details) => {
                let mut msg = String::from_str("Invalid operation: ");
                msg.append(details.as_str());
                UserMessage::new(msg, Some(*i), None, None)
            },
            ParsingError::NotImplemented(what) => {
                let mut msg = String::from_str("Not implemented: ");
                msg.append(what.as_str());
                UserMessage::new(msg, None, None, None)
            },
        }
    }
}

/// An error of compiling an expression.
#[derive(Debug, PartialEq)]
pub enum DymexError {
    LexicalError(TokenizerError),
    ParsingError(ParsingError),
}

/// A [`DymexError`] as a mathematical value.
pub enum DymexErrorView {
    LexicalError(TokenizerErrorView),
    ParsingError(ParsingErrorView),
}

impl View for DymexError {
    type V = DymexErrorView;

    open spec fn view(&self) -> DymexErrorView {
        match self {
            DymexError::LexicalError(e) => DymexErrorView::LexicalError(e@),
            DymexError::ParsingError(e) => DymexErrorView::ParsingError(e@),
        }
    }
}

impl Clone for DymexError {
    fn clone(&self) -> (r: Self)
        ensures
            r == *self,
    {
        match self {
            DymexError::LexicalError(e) => DymexError::LexicalError(e.clone()),
            DymexError::ParsingError(e) => DymexError::ParsingError(e.clone()),
        }
    }
}

impl DymexError {
    /// What is said to the user about the error.
    pub fn user_message(&self) -> (r: UserMessage)
        ensures
            r@ == match self@ {
                DymexErrorView::LexicalError(e) => e.message(),
                DymexErrorView::ParsingError(e) => e.message(),
            },
    {
        match self {
            Self::LexicalError(e) => e.user_message(),
            Self::ParsingError(e) => e.user_message(),
        }
    }
}

} // verus!
