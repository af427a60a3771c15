//! The scanner: from the text of an expression to its tokens.

use vstd::prelude::*;
use vstd::string::StringExecFns;
use crate::text::{
    alphabetic, byte_len, byte_length, byte_position, byte_span, char_width, chars_of, digit,
    ident_char, ident_char_of, is_alphabetic, is_ascii_digit, is_whitespace, lemma_byte_position_grows,
    lemma_byte_position_step, lowercase, str_eq, string_of, to_lowercase, whitespace,
};
use crate::tokenizer::error::{TokenizerError, TokenizerErrorView, VARNAME_ERR1};
use crate::tokenizer::number::{is_exponent_mark, is_number, NumberLiteral};
use crate::tokenizer::token::{
    views, ArithmeticOperator, AssignmentOperator, Constant, Function, RelationalOperator, Token,
    TokenContext, TokenContextView, TokenView, MAX_FUNC_ARGS,
};

verus! {

/// The token that stands for the end of a source of `end` characters.
pub open spec fn eof_view(end: usize) -> TokenContextView {
    TokenContextView { token: TokenView::Eof, at: end, len: 0 }
}

/// The first of the tokens `rest`, or the end token if there is none.
pub open spec fn first(rest: Seq<TokenContextView>, end: usize) -> TokenContextView {
    if rest.len() > 0 {
        rest[0]
    } else {
        eof_view(end)
    }
}

/// The tokens `rest` without their first, if there is one.
pub open spec fn tail(rest: Seq<TokenContextView>) -> Seq<TokenContextView> {
    if rest.len() > 0 {
        rest.skip(1)
    } else {
        rest
    }
}

/// Whether two sequences hold the same tokens in the same order, whatever
/// their places.
pub open spec fn same_tokens(a: Seq<TokenContextView>, b: Seq<TokenContextView>) -> bool {
    a.len() == b.len() && forall|k: int| 0 <= k < a.len() ==> a[k].token == b[k].token
}

/// The tokens of an expression, with the expression itself and the names of
/// its inputs. `tokens` keeps all of them; `next` and `peek` walk through them
/// once, and answer with the end token when none is left.
#[derive(Debug)]
pub struct TokenStream {
    pub tokens: Vec<TokenContext>,
    tokens_reversed: Vec<TokenContext>,
    expr: String,
    var: Vec<String>,
    err: Option<TokenizerError>,
    end: usize,
}

impl TokenStream {
    /// The tokens that `next` has not handed out yet, in source order.
    pub closed spec fn rest(self) -> Seq<TokenContextView> {
        Seq::new(
            self.tokens_reversed@.len(),
            |i: int| self.tokens_reversed@[self.tokens_reversed@.len() - 1 - i]@,
        )
    }

    /// All tokens of the expression, in source order.
    pub closed spec fn all(self) -> Seq<TokenContextView> {
        views(self.tokens@)
    }

    /// The length of the expression in bytes: the position of the end token.
    pub closed spec fn end(self) -> usize {
        self.end
    }

    /// The text of the expression.
    pub closed spec fn source(self) -> Seq<char> {
        self.expr@
    }

    /// The names of the inputs of the expression.
    pub closed spec fn inputs(self) -> Seq<Seq<char>> {
        Seq::new(self.var@.len(), |i: int| self.var@[i]@)
    }

    /// The error of the last scan, if it failed.
    pub closed spec fn error(self) -> Option<TokenizerError> {
        self.err
    }

    /// The stream of the empty expression.
    pub fn new() -> (r: Self)
        ensures
            r.all().len() == 0,
            r.rest().len() == 0,
            r.end() == 0,
            r.source().len() == 0,
            r.inputs().len() == 0,
            r.error() is None,
    {
        Self {
            tokens: Vec::new(),
            tokens_reversed: Vec::new(),
            expr: String::new(),
            var: Vec::new(),
            err: None,
            end: 0,
        }
    }

    /// Tells whether two streams hold the same tokens in the same order,
    /// whatever their places.
    pub fn identical(&self, other: &TokenStream) -> (r: bool)
        ensures
            r == same_tokens(self.all(), other.all()),
    {
        if self.tokens.len() != other.tokens.len() {
            return false;
        }
        let mut i: usize = 0;
        while i < self.tokens.len()
            invariant
                i <= self.tokens.len(),
                self.tokens.len() == other.tokens.len(),
                forall|k: int| 0 <= k < i ==> self.all()[k].token == other.all()[k].token,
            decreases self.tokens.len() - i,
        {
            if !self.tokens[i].token.same(&other.tokens[i].token) {
                assert(self.all()[i as int].token != other.all()[i as int].token);
                return false;
            }
            i = i + 1;
        }
        true
    }

    /// All tokens of the expression, in source order.
    pub fn all_tokens(&self) -> (r: &Vec<TokenContext>)
        ensures
            views(r@) == self.all(),
    {
        &self.tokens
    }

    /// The end token: it stands just behind the last character.
    pub fn eof(&self) -> (r: TokenContext)
        ensures
            r@ == eof_view(self.end()),
    {
        TokenContext { token: Token::Eof, at: self.end, len: 0 }
    }

    /// Hands out the next token and moves on; at the end, the end token.
    pub fn next(&mut self) -> (r: TokenContext)
        ensures
            r@ == first(old(self).rest(), old(self).end()),
            final(self).rest() == tail(old(self).rest()),
            final(self).end() == old(self).end(),
            final(self).source() == old(self).source(),
            final(self).all() == old(self).all(),
            final(self).inputs() == old(self).inputs(),
            final(self).error() == old(self).error(),
    {
        match self.tokens_reversed.pop() {
            Some(tc) => {
                assert(self.rest() =~= tail(old(self).rest()));
                tc
            },
            None => self.eof(),
        }
    }

    /// The next token, without moving on; at the end, the end token.
    pub fn peek(&self) -> (r: TokenContext)
        ensures
            r@ == first(self.rest(), self.end()),
    {
        let n = self.tokens_reversed.len();
        if n > 0 {
            self.tokens_reversed[n - 1].clone()
        } else {
            self.eof()
        }
    }
}

/// The characters that no expression may hold, in the order in which they are
/// looked for.
pub open spec fn invalid_chars() -> Seq<char> {
    seq!['#', '?', '\u{2dd}', '`', '\'', '&', '|', '$', '@', '%', '{', '}']
}

/// The characters, besides letters, digits and white space, that tokens are
/// made of.
pub open spec fn is_special(c: char) -> bool {
    c == '(' || c == ')' || c == '[' || c == ']' || c == '.' || c == ',' || c == ':' || c == '+'
        || c == '-' || c == '*' || c == '/' || c == '^' || c == '=' || c == '<' || c == '>' || c
        == '!' || c == '\u{3c0}'
}

/// Whether a name is reserved for a function or a constant.
pub open spec fn is_reserved(name: Seq<char>) -> bool {
    name == "min"@ || name == "max"@ || name == "avg"@ || name == "mean"@ || name == "std"@
        || name == "sum"@ || name == "sin"@ || name == "cos"@ || name == "tan"@ || name
        == "cotan"@ || name == "abs"@ || name == "exp"@ || name == "log"@ || name == "log2"@
        || name == "log10"@ || name == "sqrt"@ || name == "pi"@ || name == "e"@ || name
        == "sqrt2"@ || name == "sqrt3"@
}

/// The names of the inputs, as sequences of characters.
pub open spec fn names(vars: Seq<&str>) -> Seq<Seq<char>> {
    Seq::new(vars.len(), |i: int| vars[i]@)
}

/// The index of the first character at or behind the `from`-th that is `c`.
pub open spec fn position_of(s: Seq<char>, c: char, from: int) -> Option<int>
    decreases s.len() - from,
{
    if 0 <= from < s.len() {
        if s[from] == c {
            Some(from)
        } else {
            position_of(s, c, from + 1)
        }
    } else {
        None
    }
}

/// The first of the invalid characters from the `k`-th on that occurs in the
/// text, with the byte offset of its first occurrence.
pub open spec fn illegal_character(s: Seq<char>, k: int) -> Option<(char, int)>
    decreases invalid_chars().len() - k,
{
    if 0 <= k < invalid_chars().len() {
        match position_of(s, invalid_chars()[k], 0) {
            Some(at) => Some((invalid_chars()[k], byte_position(s, at))),
            None => illegal_character(s, k + 1),
        }
    } else {
        None
    }
}

/// The first name at or behind `from` that is reserved.
pub open spec fn reserved_input(vars: Seq<Seq<char>>, from: int) -> Option<Seq<char>>
    decreases vars.len() - from,
{
    if 0 <= from < vars.len() {
        if is_reserved(vars[from]) {
            Some(vars[from])
        } else {
            reserved_input(vars, from + 1)
        }
    } else {
        None
    }
}

/// The token that one character stands for.
pub open spec fn single_char_token(c: char) -> Option<TokenView> {
    if c == '(' {
        Some(TokenView::LP)
    } else if c == ')' {
        Some(TokenView::RP)
    } else if c == '[' {
        Some(TokenView::LB)
    } else if c == ']' {
        Some(TokenView::RB)
    } else if c == '.' {
        Some(TokenView::Dot)
    } else if c == ',' {
        Some(TokenView::Comma)
    } else if c == ':' {
        Some(TokenView::Colon)
    } else if c == '+' {
        Some(TokenView::ArOp(ArithmeticOperator::Plus))
    } else if c == '-' {
        Some(TokenView::ArOp(ArithmeticOperator::Minus))
    } else if c == '/' {
        Some(TokenView::ArOp(ArithmeticOperator::Div))
    } else if c == '^' {
        Some(TokenView::ArOp(ArithmeticOperator::Pow))
    } else if c == '*' || c == '\u{d7}' || c == '\u{22c5}' {
        Some(TokenView::ArOp(ArithmeticOperator::Mul))
    } else if c == '=' {
        Some(TokenView::AssignOp(AssignmentOperator::Assign))
    } else if c == '>' {
        Some(TokenView::RelOp(RelationalOperator::Greater))
    } else if c == '<' {
        Some(TokenView::RelOp(RelationalOperator::Lesser))
    } else if c == '\u{3c0}' {
        Some(TokenView::Const(Constant::Pi))
    } else {
        None
    }
}

/// The token that two characters stand for together.
pub open spec fn double_char_token(c1: char, c2: char) -> Option<TokenView> {
    if c1 == '*' && c2 == '*' {
        Some(TokenView::ArOp(ArithmeticOperator::Pow))
    } else if c1 == '+' && c2 == '=' {
        Some(TokenView::AssignOp(AssignmentOperator::PlusEq))
    } else if c1 == '-' && c2 == '=' {
        Some(TokenView::AssignOp(AssignmentOperator::MinusEq))
    } else if c1 == '*' && c2 == '=' {
        Some(TokenView::AssignOp(AssignmentOperator::TimesEq))
    } else if c1 == '/' && c2 == '=' {
        Some(TokenView::AssignOp(AssignmentOperator::DivideEq))
    } else if c1 == '=' && c2 == '=' {
        Some(TokenView::RelOp(RelationalOperator::Eq))
    } else if c1 == '>' && c2 == '=' {
        Some(TokenView::RelOp(RelationalOperator::Geq))
    } else if c1 == '<' && c2 == '=' {
        Some(TokenView::RelOp(RelationalOperator::Leq))
    } else if c1 == '!' && c2 == '=' {
        Some(TokenView::RelOp(RelationalOperator::Neq))
    } else {
        None
    }
}

/// The token that begins with `c1`, followed by `c2`, and its length: a token
/// of two characters where there is one, else a token of one.
pub open spec fn special_token(c1: char, c2: char) -> Option<(TokenView, usize)> {
    match double_char_token(c1, c2) {
        Some(t) => Some((t, 2)),
        None => match single_char_token(c1) {
            Some(t) => Some((t, 1)),
            None => None,
        },
    }
}

/// Whether the character at `i` goes on with a number that begins at 0: a
/// digit, a point or an exponent mark anywhere; `-` at the front or just
/// behind an exponent mark; `_` between two digits.
pub open spec fn continues_number(s: Seq<char>, i: int) -> bool {
    let c = s[i];
    digit(c) || c == '.' || is_exponent_mark(c) || (c == '-' && (i == 0 || is_exponent_mark(
        s[i - 1],
    ))) || (c == '_' && i > 0 && digit(s[i - 1]) && i + 1 < s.len()
        && digit(s[i + 1]))
}

/// The first position at or behind `from` whose character does not go on with
/// the number.
pub open spec fn number_end(s: Seq<char>, from: int) -> int
    decreases s.len() - from,
{
    if 0 <= from < s.len() && continues_number(s, from) {
        number_end(s, from + 1)
    } else {
        from
    }
}

/// The characters without the digit separators `_`.
pub open spec fn without_separators(s: Seq<char>) -> Seq<char>
    decreases s.len(),
{
    if s.len() == 0 {
        s
    } else if s.last() == '_' {
        without_separators(s.drop_last())
    } else {
        without_separators(s.drop_last()).push(s.last())
    }
}

/// The number that the characters begin with: its text without separators,
/// and how many characters it spans. None if the longest run of characters
/// that go on with a number is no number.
pub open spec fn number_at(s: Seq<char>) -> Option<(Seq<char>, nat)> {
    let n = number_end(s, 0);
    let text = without_separators(s.take(n));
    if is_number(text) {
        Some((text, n as nat))
    } else {
        None
    }
}

/// The first position at or behind `from` that holds no identifier character.
pub open spec fn ident_end(s: Seq<char>, from: int) -> int
    decreases s.len() - from,
{
    if 0 <= from < s.len() && ident_char(s[from]) {
        ident_end(s, from + 1)
    } else {
        from
    }
}

/// The function that a word in lower case names.
pub open spec fn function_named(word: Seq<char>) -> Option<TokenView> {
    if word == "min"@ {
        Some(TokenView::Func(Function::Min, MAX_FUNC_ARGS))
    } else if word == "max"@ {
        Some(TokenView::Func(Function::Max, MAX_FUNC_ARGS))
    } else if word == "avg"@ || word == "mean"@ {
        Some(TokenView::Func(Function::Avg, MAX_FUNC_ARGS))
    } else if word == "std"@ {
        Some(TokenView::Func(Function::Std, MAX_FUNC_ARGS))
    } else if word == "sum"@ {
        Some(TokenView::Func(Function::Sum, MAX_FUNC_ARGS))
    } else if word == "abs"@ {
        Some(TokenView::Func(Function::Abs, 1))
    } else if word == "sin"@ {
        Some(TokenView::Func(Function::Sin, 1))
    } else if word == "cos"@ {
        Some(TokenView::Func(Function::Cos, 1))
    } else if word == "tan"@ {
        Some(TokenView::Func(Function::Tan, 1))
    } else if word == "cotan"@ {
        Some(TokenView::Func(Function::Cot, 1))
    } else if word == "exp"@ {
        Some(TokenView::Func(Function::Exp, 1))
    } else if word == "log"@ {
        Some(TokenView::Func(Function::Log, 1))
    } else if word == "log2"@ {
        Some(TokenView::Func(Function::Log2, 1))
    } else if word == "log10"@ {
        Some(TokenView::Func(Function::Log10, 1))
    } else if word == "sqrt"@ {
        Some(TokenView::Func(Function::Sqrt, 1))
    } else {
        None
    }
}

/// The constant that a word in lower case names.
pub open spec fn constant_named(word: Seq<char>) -> Option<TokenView> {
    if word == "pi"@ || word == "\u{3c0}"@ {
        Some(TokenView::Const(Constant::Pi))
    } else if word == "e"@ {
        Some(TokenView::Const(Constant::Euler))
    } else if word == "sqrt2"@ {
        Some(TokenView::Const(Constant::Sqrt2))
    } else if word == "sqrt3"@ {
        Some(TokenView::Const(Constant::Sqrt3))
    } else {
        None
    }
}

/// The token of a word that is neither a function nor a constant: an input
/// name if it stands behind a dot or is among the inputs, else an error at
/// `start`.
pub open spec fn variable_named(
    word: Seq<char>,
    start: usize,
    vars: Seq<Seq<char>>,
    after_dot: bool,
) -> Result<TokenView, TokenizerErrorView> {
    if after_dot || vars.contains(word) {
        Ok(TokenView::Var(word))
    } else {
        Err(TokenizerErrorView::UndefinedVariable(start, word))
    }
}

/// The token of a word whose lowercase form is `lower`: a function or a
/// constant if `lower` names one, else what [`variable_named`] says of the
/// word as it is written.
pub open spec fn word_named(
    word: Seq<char>,
    lower: Seq<char>,
    start: usize,
    vars: Seq<Seq<char>>,
    after_dot: bool,
) -> Result<TokenView, TokenizerErrorView> {
    match function_named(lower) {
        Some(t) => Ok(t),
        None => match constant_named(lower) {
            Some(t) => Ok(t),
            None => variable_named(word, start, vars, after_dot),
        },
    }
}

/// The token of the identifier that the characters begin with, and the number
/// of characters it spans: a function or a constant if the word, in lower
/// case, names one, else an input name. `start` is the byte offset of the
/// identifier in the source, for the error.
pub open spec fn identifier_at(
    s: Seq<char>,
    start: usize,
    vars: Seq<Seq<char>>,
    after_dot: bool,
) -> Result<(TokenView, nat), TokenizerErrorView> {
    let n = ident_end(s, 0);
    let word = s.take(n);
    match word_named(word, lowercase(word), start, vars, after_dot) {
        Ok(t) => Ok((t, n as nat)),
        Err(e) => Err(e),
    }
}

/// What a character begins, told by the character, the one behind it and the
/// two classes that Unicode gives it.
#[derive(Debug, Clone, Copy, PartialEq, Eq, Structural)]
pub enum LexemeClass {
    /// White space, which is passed over.
    Blank,
    /// An identifier: it begins with a letter or `_`.
    Word,
    /// A number: it begins with a digit, or with `-` before a digit.
    Number,
    /// One of the characters that operators and brackets are made of.
    Special,
    /// Nothing that belongs to the language.
    Invalid,
}

/// What the character `c` begins where `next` stands behind it. `space` and
/// `letter` say whether `c` is white space and whether it is alphabetic. White
/// space goes before a letter, a letter before a number, a number before an
/// operator: so `-` before a digit begins a number.
pub open spec fn class_of(c: char, next: char, space: bool, letter: bool) -> LexemeClass {
    if space {
        LexemeClass::Blank
    } else if letter || c == '_' {
        LexemeClass::Word
    } else if digit(c) || (c == '-' && digit(next)) {
        LexemeClass::Number
    } else if is_special(c) {
        LexemeClass::Special
    } else {
        LexemeClass::Invalid
    }
}

/// What stands at a position of the source.
pub enum Lexeme {
    /// White space.
    Blank,
    /// A token and the number of characters it spans.
    Token(TokenView, nat),
    /// Nothing that belongs to the language.
    Fault(TokenizerErrorView),
}

/// What stands at the `pos`-th character of the source `src`. `after_dot`
/// tells whether the token before is a dot. An error carries the byte offset
/// of that character.
pub open spec fn lexeme_at(
    src: Seq<char>,
    pos: int,
    vars: Seq<Seq<char>>,
    after_dot: bool,
) -> Lexeme {
    let c = src[pos];
    let c2 = if pos + 1 < src.len() {
        src[pos + 1]
    } else {
        ' '
    };
    let at = byte_position(src, pos) as usize;
    match class_of(c, c2, whitespace(c), alphabetic(c)) {
        LexemeClass::Blank => Lexeme::Blank,
        LexemeClass::Word => match identifier_at(src.skip(pos), at, vars, after_dot) {
            Ok((t, n)) => Lexeme::Token(t, n),
            Err(e) => Lexeme::Fault(e),
        },
        LexemeClass::Number => match number_at(src.skip(pos)) {
            Some((text, n)) => Lexeme::Token(TokenView::Number(text), n),
            None => Lexeme::Fault(TokenizerErrorView::InvalidNumberFormat(at)),
        },
        LexemeClass::Special => match special_token(c, c2) {
            Some((t, n)) => Lexeme::Token(t, n as nat),
            None => Lexeme::Fault(TokenizerErrorView::SyntaxError(at)),
        },
        LexemeClass::Invalid => Lexeme::Fault(TokenizerErrorView::InvalidCharacter(c, at)),
    }
}

/// The place of the token that spans the `n` characters from the `pos`-th on:
/// the byte offset at which it begins and the number of bytes it takes.
pub open spec fn placed(src: Seq<char>, pos: int, n: int, t: TokenView) -> TokenContextView {
    TokenContextView {
        token: t,
        at: byte_position(src, pos) as usize,
        len: (byte_position(src, pos + n) - byte_position(src, pos)) as usize,
    }
}

/// The tokens of the source from the `pos`-th character on, or the first
/// error. The scan goes by characters; the places of the tokens are in bytes.
///
/// The check of a token's length only keeps the definition well founded: by
/// [`lemma_lexeme_fits`] it never fails.
pub open spec fn scan(src: Seq<char>, pos: int, vars: Seq<Seq<char>>, after_dot: bool) -> Result<
    Seq<TokenContextView>,
    TokenizerErrorView,
>
    decreases src.len() - pos,
{
    if 0 <= pos < src.len() {
        match lexeme_at(src, pos, vars, after_dot) {
            Lexeme::Blank => scan(src, pos + 1, vars, after_dot),
            Lexeme::Token(t, n) => if 1 <= n <= src.len() - pos {
                match scan(src, pos + n, vars, t is Dot) {
                    Ok(rest) => Ok(seq![placed(src, pos, n as int, t)] + rest),
                    Err(e) => Err(e),
                }
            } else {
                Err(TokenizerErrorView::SyntaxError(byte_position(src, pos) as usize))
            },
            Lexeme::Fault(e) => Err(e),
        }
    } else {
        Ok(Seq::empty())
    }
}

/// The tokens of an expression over the inputs `vars`, or the first error:
/// a reserved input name, else an invalid character, else what the scan of
/// the source finds.
pub open spec fn lex(src: Seq<char>, vars: Seq<Seq<char>>) -> Result<
    Seq<TokenContextView>,
    TokenizerErrorView,
> {
    match reserved_input(vars, 0) {
        Some(name) => Err(TokenizerErrorView::InvalidVariableName(name, VARNAME_ERR1@)),
        None => match illegal_character(src, 0) {
            Some((c, at)) => Err(TokenizerErrorView::InvalidCharacter(c, at as usize)),
            None => scan(src, 0, vars, false),
        },
    }
}

/// Each token lies inside a source of `end` bytes and spans at least one
/// byte, and each begins where the one before has ended or later.
pub open spec fn in_order(tokens: Seq<TokenContextView>, end: int) -> bool {
    &&& forall|i: int|
        0 <= i < tokens.len() ==> (#[trigger] tokens[i]).len >= 1 && tokens[i].at + tokens[i].len
            <= end
    &&& forall|i: int, j: int|
        0 <= i < j < tokens.len() ==> (#[trigger] tokens[i]).at + tokens[i].len <= (
        #[trigger] tokens[j]).at
}

/// Whether an answer without a value is what `expected` says.
pub open spec fn faults_as(
    r: Result<(), TokenizerError>,
    expected: Option<TokenizerErrorView>,
) -> bool {
    match expected {
        Some(e) => r matches Err(x) && x@ == e,
        None => r is Ok,
    }
}

/// The first position at or behind `from` where `c` stands.
fn find_char(s: &[char], c: char) -> (r: Option<usize>)
    ensures
        match position_of(s@, c, 0) {
            Some(at) => r matches Some(x) && x == at && at < s@.len(),
            None => r is None,
        },
{
    let mut i: usize = 0;
    while i < s.len()
        invariant
            i <= s@.len(),
            position_of(s@, c, 0) == position_of(s@, c, i as int),
        decreases s@.len() - i,
    {
        if s[i] == c {
            return Some(i);
        }
        i = i + 1;
    }
    None
}

/// Checks that the expression holds none of the invalid characters.
pub fn check_illegal_characters(s: &str) -> (r: Result<(), TokenizerError>)
    ensures
        faults_as(
            r,
            match illegal_character(s@, 0) {
                Some((c, at)) => Some(TokenizerErrorView::InvalidCharacter(c, at as usize)),
                None => None,
            },
        ),
{
    let chars = chars_of(s);
    let total = byte_length(s);
    let invalid: [char; 12] = ['#', '?', '\u{2dd}', '`', '\'', '&', '|', '$', '@', '%', '{', '}'];
    assert(invalid@ =~= invalid_chars());
    let mut k: usize = 0;
    while k < 12
        invariant
            k <= 12,
            chars@ == s@,
            total == byte_len(s@),
            invalid@ == invalid_chars(),
            illegal_character(s@, 0) == illegal_character(s@, k as int),
        decreases 12 - k,
    {
        if let Some(at) = find_char(chars.as_slice(), invalid[k]) {
            proof {
                lemma_byte_position_grows(s@, 0, at as int);
            }
            let offset = byte_span(chars.as_slice(), 0, at);
            return Err(TokenizerError::InvalidCharacter(invalid[k], offset));
        }
        k = k + 1;
    }
    Ok(())
}

/// Tells whether a name is reserved for a function or a constant.
pub fn reserved(name: &str) -> (r: bool)
    ensures
        r == is_reserved(name@),
{
    str_eq(name, "min") || str_eq(name, "max") || str_eq(name, "avg") || str_eq(name, "mean")
        || str_eq(name, "std") || str_eq(name, "sum") || str_eq(name, "sin") || str_eq(
        name,
        "cos",
    ) || str_eq(name, "tan") || str_eq(name, "cotan") || str_eq(name, "abs") || str_eq(
        name,
        "exp",
    ) || str_eq(name, "log") || str_eq(name, "log2") || str_eq(name, "log10") || str_eq(
        name,
        "sqrt",
    ) || str_eq(name, "pi") || str_eq(name, "e") || str_eq(name, "sqrt2") || str_eq(
        name,
        "sqrt3",
    )
}

/// Checks that no input has a name that is reserved.
pub fn check_input_variables(variables: &[&str]) -> (r: Result<(), TokenizerError>)
    ensures
        faults_as(
            r,
            match reserved_input(names(variables@), 0) {
                Some(name) => Some(TokenizerErrorView::InvalidVariableName(name, VARNAME_ERR1@)),
                None => None,
            },
        ),
{
    let mut i: usize = 0;
    while i < variables.len()
        invariant
            i <= variables@.len(),
            reserved_input(names(variables@), 0) == reserved_input(names(variables@), i as int),
        decreases variables@.len() - i,
    {
        if reserved(variables[i]) {
            return Err(
                TokenizerError::InvalidVariableName(String::from_str(variables[i]), VARNAME_ERR1),
            );
        }
        i = i + 1;
    }
    Ok(())
}

/// Whether a token with its length is what `expected` says.
pub open spec fn token_as(r: Option<(Token, usize)>, expected: Option<(TokenView, usize)>) -> bool {
    match expected {
        Some((t, n)) => r matches Some(x) && x.0@ == t && x.1 == n,
        None => r is None,
    }
}

/// Whether a token is what `expected` says.
pub open spec fn kind_as(r: Option<Token>, expected: Option<TokenView>) -> bool {
    match expected {
        Some(t) => r matches Some(x) && x@ == t,
        None => r is None,
    }
}

/// The token that one character stands for.
pub fn parse_single_char_token(c: char) -> (r: Option<Token>)
    ensures
        kind_as(r, single_char_token(c)),
{
    if c == '(' {
        Some(Token::LP)
    } else if c == ')' {
        Some(Token::RP)
    } else if c == '[' {
        Some(Token::LB)
    } else if c == ']' {
        Some(Token::RB)
    } else if c == '.' {
        Some(Token::Dot)
    } else if c == ',' {
        Some(Token::Comma)
    } else if c == ':' {
        Some(Token::Colon)
    } else if c == '+' {
        Some(Token::ArOp(ArithmeticOperator::Plus))
    } else if c == '-' {
        Some(Token::ArOp(ArithmeticOperator::Minus))
    } else if c == '/' {
        Some(Token::ArOp(ArithmeticOperator::Div))
    } else if c == '^' {
        Some(Token::ArOp(ArithmeticOperator::Pow))
    } else if c == '*' || c == '\u{d7}' || c == '\u{22c5}' {
        Some(Token::ArOp(ArithmeticOperator::Mul))
    } else if c == '=' {
        Some(Token::AssignOp(AssignmentOperator::Assign))
    } else if c == '>' {
        Some(Token::RelOp(RelationalOperator::Greater))
    } else if c == '<' {
        Some(Token::RelOp(RelationalOperator::Lesser))
    } else if c == '\u{3c0}' {
        Some(Token::Const(Constant::Pi))
    } else {
        None
    }
}

/// The token that two characters stand for together.
pub fn parse_double_char_token(c1: char, c2: char) -> (r: Option<Token>)
    ensures
        kind_as(r, double_char_token(c1, c2)),
{
    if c1 == '*' && c2 == '*' {
        Some(Token::ArOp(ArithmeticOperator::Pow))
    } else if c1 == '+' && c2 == '=' {
        Some(Token::AssignOp(AssignmentOperator::PlusEq))
    } else if c1 == '-' && c2 == '=' {
        Some(Token::AssignOp(AssignmentOperator::MinusEq))
    } else if c1 == '*' && c2 == '=' {
        Some(Token::AssignOp(AssignmentOperator::TimesEq))
    } else if c1 == '/' && c2 == '=' {
        Some(Token::AssignOp(AssignmentOperator::DivideEq))
    } else if c1 == '=' && c2 == '=' {
        Some(Token::RelOp(RelationalOperator::Eq))
    } else if c1 == '>' && c2 == '=' {
        Some(Token::RelOp(RelationalOperator::Geq))
    } else if c1 == '<' && c2 == '=' {
        Some(Token::RelOp(RelationalOperator::Leq))
    } else if c1 == '!' && c2 == '=' {
        Some(Token::RelOp(RelationalOperator::Neq))
    } else {
        None
    }
}

/// The token that begins with `c1`, followed by `c2`, and its length.
pub fn parse_special_characters(c1: char, c2: char) -> (r: Option<(Token, usize)>)
    ensures
        token_as(r, special_token(c1, c2)),
{
    if let Some(t) = parse_double_char_token(c1, c2) {
        return Some((t, 2));
    }
    if let Some(t) = parse_single_char_token(c1) {
        return Some((t, 1));
    }
    None
}

/// Tells whether the character is one of those that tokens are made of
/// besides letters, digits and white space.
pub fn is_special_char(c: char) -> (r: bool)
    ensures
        r == is_special(c),
{
    c == '(' || c == ')' || c == '[' || c == ']' || c == '.' || c == ',' || c == ':' || c == '+'
        || c == '-' || c == '*' || c == '/' || c == '^' || c == '=' || c == '<' || c == '>' || c
        == '!' || c == '\u{3c0}'
}

/// Tells whether the character at `i` goes on with a number that begins at 0.
fn goes_on(s: &[char], i: usize) -> (r: bool)
    requires
        i < s@.len(),
    ensures
        r == continues_number(s@, i as int),
{
    let c = s[i];
    if is_ascii_digit(c) || c == '.' || c == 'e' || c == 'E' {
        true
    } else if c == '-' && (i == 0 || s[i - 1] == 'e' || s[i - 1] == 'E') {
        true
    } else {
        c == '_' && i > 0 && is_ascii_digit(s[i - 1]) && i + 1 < s.len() && is_ascii_digit(
            s[i + 1],
        )
    }
}

/// Reads the number that the characters begin with: the token, and how many
/// characters it spans. None if what begins like a number is none.
pub fn parse_number(s: &[char]) -> (r: Option<(Token, usize)>)
    ensures
        match number_at(s@) {
            Some((text, n)) => r matches Some(x) && x.0@ == TokenView::Number(text) && x.1 == n,
            None => r is None,
        },
        r matches Some(x) ==> x.1 <= s@.len(),
{
    let mut text: Vec<char> = Vec::new();
    let mut i: usize = 0;
    while i < s.len() && goes_on(s, i)
        invariant
            i <= s@.len(),
            number_end(s@, 0) == number_end(s@, i as int),
            text@ == without_separators(s@.take(i as int)),
        decreases s@.len() - i,
    {
        if s[i] != '_' {
            text.push(s[i]);
        }
        i = i + 1;
        assert(s@.take(i as int).drop_last() == s@.take(i - 1));
    }
    match NumberLiteral::from_chars(text.as_slice()) {
        Some(literal) => Some((Token::Number(literal), i)),
        None => None,
    }
}

/// Tells whether the character may stand inside an identifier.
pub fn is_ident_char(c: char) -> (r: bool)
    ensures
        r == ident_char(c),
{
    ident_char_given(c, is_alphabetic(c))
}

/// Tells whether the character may stand inside an identifier, where
/// `letter` says whether it is alphabetic.
pub fn ident_char_given(c: char, letter: bool) -> (r: bool)
    ensures
        r == ident_char_of(c, letter),
{
    if letter || is_ascii_digit(c) || c == '_' {
        return true;
    }
    false
}

/// Tells what the character `c` begins where `next` stands behind it, from
/// the two classes that Unicode gives `c`.
pub fn classify(c: char, next: char, space: bool, letter: bool) -> (r: LexemeClass)
    ensures
        r == class_of(c, next, space, letter),
{
    if space {
        LexemeClass::Blank
    } else if letter || c == '_' {
        LexemeClass::Word
    } else if is_ascii_digit(c) || (c == '-' && is_ascii_digit(next)) {
        LexemeClass::Number
    } else if is_special_char(c) {
        LexemeClass::Special
    } else {
        LexemeClass::Invalid
    }
}

/// The function that a word names, in whatever case it is written.
pub fn parse_function(word: &str) -> (r: Option<Token>)
    ensures
        kind_as(r, function_named(lowercase(word@))),
{
    let lower = to_lowercase(word);
    function_of(lower.as_str())
}

/// The function that a word in lower case names.
pub fn function_of(w: &str) -> (r: Option<Token>)
    ensures
        kind_as(r, function_named(w@)),
{
    if str_eq(w, "min") {
        Some(Token::Func(Function::Min, MAX_FUNC_ARGS))
    } else if str_eq(w, "max") {
        Some(Token::Func(Function::Max, MAX_FUNC_ARGS))
    } else if str_eq(w, "avg") || str_eq(w, "mean") {
        Some(Token::Func(Function::Avg, MAX_FUNC_ARGS))
    } else if str_eq(w, "std") {
        Some(Token::Func(Function::Std, MAX_FUNC_ARGS))
    } else if str_eq(w, "sum") {
        Some(Token::Func(Function::Sum, MAX_FUNC_ARGS))
    } else if str_eq(w, "abs") {
        Some(Token::Func(Function::Abs, 1))
    } else if str_eq(w, "sin") {
        Some(Token::Func(Function::Sin, 1))
    } else if str_eq(w, "cos") {
        Some(Token::Func(Function::Cos, 1))
    } else if str_eq(w, "tan") {
        Some(Token::Func(Function::Tan, 1))
    } else if str_eq(w, "cotan") {
        Some(Token::Func(Function::Cot, 1))
    } else if str_eq(w, "exp") {
        Some(Token::Func(Function::Exp, 1))
    } else if str_eq(w, "log") {
        Some(Token::Func(Function::Log, 1))
    } else if str_eq(w, "log2") {
        Some(Token::Func(Function::Log2, 1))
    } else if str_eq(w, "log10") {
        Some(Token::Func(Function::Log10, 1))
    } else if str_eq(w, "sqrt") {
        Some(Token::Func(Function::Sqrt, 1))
    } else {
        None
    }
}

/// The constant that a word names, in whatever case it is written.
pub fn parse_const(word: &str) -> (r: Option<Token>)
    ensures
        kind_as(r, constant_named(lowercase(word@))),
{
    let lower = to_lowercase(word);
    constant_of(lower.as_str())
}

/// The constant that a word in lower case names.
pub fn constant_of(w: &str) -> (r: Option<Token>)
    ensures
        kind_as(r, constant_named(w@)),
{
    if str_eq(w, "pi") || str_eq(w, "\u{3c0}") {
        Some(Token::Const(Constant::Pi))
    } else if str_eq(w, "e") {
        Some(Token::Const(Constant::Euler))
    } else if str_eq(w, "sqrt2") {
        Some(Token::Const(Constant::Sqrt2))
    } else if str_eq(w, "sqrt3") {
        Some(Token::Const(Constant::Sqrt3))
    } else {
        None
    }
}

/// Tells whether a word is among the names.
fn is_input(vars: &[&str], word: &str) -> (r: bool)
    ensures
        r == names(vars@).contains(word@),
{
    let mut i: usize = 0;
    while i < vars.len()
        invariant
            i <= vars@.len(),
            forall|k: int| 0 <= k < i ==> names(vars@)[k] != word@,
        decreases vars@.len() - i,
    {
        if str_eq(vars[i], word) {
            assert(names(vars@)[i as int] == word@);
            return true;
        }
        i = i + 1;
    }
    false
}

/// Whether the token before, if there is one, is a dot.
pub open spec fn is_dot(previous: Option<&TokenContext>) -> bool {
    previous matches Some(tc) && tc@.token is Dot
}

/// The token of a word that is neither a function nor a constant. Behind a
/// dot any word is a name: whether the field exists is known only when the
/// expression is evaluated.
pub fn parse_variable(word: &str, start: usize, vars: &[&str], prev: Option<&TokenContext>) -> (r:
    Result<Token, TokenizerError>)
    ensures
        match variable_named(word@, start, names(vars@), is_dot(prev)) {
            Ok(t) => r matches Ok(x) && x@ == t,
            Err(e) => r matches Err(x) && x@ == e,
        },
{
    let after_dot = match prev {
        Some(tc) => match tc.token {
            Token::Dot => true,
            _ => false,
        },
        None => false,
    };
    if after_dot || is_input(vars, word) {
        Ok(Token::Var(String::from_str(word)))
    } else {
        Err(TokenizerError::UndefinedVariable(start, String::from_str(word)))
    }
}

/// The token of the word `word` whose lowercase form is `lower`: a function,
/// a constant or an input name. `start` is the byte offset of the word in the
/// source, for the error.
pub fn word_token(
    word: &str,
    lower: &str,
    start: usize,
    vars: &[&str],
    previous: Option<&TokenContext>,
) -> (r: Result<Token, TokenizerError>)
    ensures
        match word_named(word@, lower@, start, names(vars@), is_dot(previous)) {
            Ok(t) => r matches Ok(x) && x@ == t,
            Err(e) => r matches Err(x) && x@ == e,
        },
{
    if let Some(func) = function_of(lower) {
        return Ok(func);
    }
    if let Some(constant) = constant_of(lower) {
        return Ok(constant);
    }
    parse_variable(word, start, vars, previous)
}

/// Reads the identifier that the characters begin with: a function, a
/// constant or an input name, and how many characters it spans. `start` is
/// the byte offset of the identifier in the source, for the error.
pub fn parse_identifier(
    s: &[char],
    start: usize,
    vars: &[&str],
    previous: Option<&TokenContext>,
) -> (r: Result<(Token, usize), TokenizerError>)
    ensures
        match identifier_at(s@, start, names(vars@), is_dot(previous)) {
            Ok((t, n)) => r matches Ok(x) && x.0@ == t && x.1 == n,
            Err(e) => r matches Err(x) && x@ == e,
        },
        r matches Ok(x) ==> x.1 <= s@.len() && (s@.len() > 0 && ident_char(s@[0]) ==> x.1 >= 1),
{
    let mut n: usize = 0;
    while n < s.len() && is_ident_char(s[n])
        invariant
            n <= s@.len(),
            ident_end(s@, 0) == ident_end(s@, n as int),
        decreases s@.len() - n,
    {
        n = n + 1;
    }
    let id = string_of(s, 0, n);
    assert(s@.subrange(0, n as int) == s@.take(n as int));
    let lower = to_lowercase(id.as_str());
    match word_token(id.as_str(), lower.as_str(), start, vars, previous) {
        Ok(token) => Ok((token, n)),
        Err(err) => Err(err),
    }
}

/// The tokens `done` followed by what a scan of the rest yields.
pub open spec fn followed_by(
    done: Seq<TokenContextView>,
    rest: Result<Seq<TokenContextView>, TokenizerErrorView>,
) -> Result<Seq<TokenContextView>, TokenizerErrorView> {
    match rest {
        Ok(more) => Ok(done + more),
        Err(e) => Err(e),
    }
}

/// Whether the last of the tokens is a dot.
pub open spec fn ends_with_dot(tokens: Seq<TokenContextView>) -> bool {
    tokens.len() > 0 && tokens.last().token is Dot
}

/// Whether tokens or an error are what `expected` says.
pub open spec fn lexes_as(
    r: Result<Vec<TokenContext>, TokenizerError>,
    expected: Result<Seq<TokenContextView>, TokenizerErrorView>,
) -> bool {
    match expected {
        Ok(t) => r matches Ok(v) && views(v@) == t,
        Err(e) => r matches Err(x) && x@ == e,
    }
}

/// Where a character is found, it stands; where none is found, it stands
/// nowhere at or behind `from`.
proof fn lemma_position_of(s: Seq<char>, c: char, from: int)
    requires
        0 <= from,
    ensures
        position_of(s, c, from) matches Some(at) ==> from <= at < s.len() && s[at] == c,
        position_of(s, c, from) is None ==> forall|i: int| from <= i < s.len() ==> s[i] != c,
    decreases s.len() - from,
{
    if from < s.len() && s[from] != c {
        lemma_position_of(s, c, from + 1);
    }
}

proof fn lemma_illegal_character_from(s: Seq<char>, k: int)
    requires
        0 <= k,
    ensures
        illegal_character(s, k) is None ==> forall|i: int, j: int|
            0 <= i < s.len() && k <= j < invalid_chars().len() ==> s[i] != invalid_chars()[j],
        illegal_character(s, k) matches Some((c, at)) ==> invalid_chars().contains(c) && exists|
            i: int,
        |
            0 <= i < s.len() && #[trigger] s[i] == c && at == byte_position(s, i),
    decreases invalid_chars().len() - k,
{
    if k < invalid_chars().len() {
        let c = invalid_chars()[k];
        lemma_position_of(s, c, 0);
        lemma_illegal_character_from(s, k + 1);
        if let Some(i) = position_of(s, c, 0) {
            assert(s[i] == c);
        }
    }
}

/// What the search for an invalid character finds. It finds nothing if and
/// only if none of the invalid characters stands in the text. What it finds
/// is one of the invalid characters, with the byte offset of a place where
/// that character stands.
pub proof fn lemma_illegal_character(s: Seq<char>)
    ensures
        illegal_character(s, 0) is None <==> forall|i: int|
            0 <= i < s.len() ==> !invalid_chars().contains(#[trigger] s[i]),
        illegal_character(s, 0) matches Some((c, at)) ==> invalid_chars().contains(c) && exists|
            i: int,
        |
            0 <= i < s.len() && #[trigger] s[i] == c && at == byte_position(s, i),
{
    lemma_illegal_character_from(s, 0);
    if illegal_character(s, 0) is None {
        assert forall|i: int| 0 <= i < s.len() implies !invalid_chars().contains(
            #[trigger] s[i],
        ) by {
            if invalid_chars().contains(s[i]) {
                let j = choose|j: int| 0 <= j < invalid_chars().len() && invalid_chars()[j] == s[i];
                assert(s[i] != invalid_chars()[j]);
            }
        }
    } else {
        let c = illegal_character(s, 0)->Some_0.0;
        let i = choose|i: int| 0 <= i < s.len() && #[trigger] s[i] == c;
        assert(invalid_chars().contains(s[i]));
    }
}

proof fn lemma_ident_end_bounds(s: Seq<char>, from: int)
    requires
        0 <= from <= s.len(),
    ensures
        from <= ident_end(s, from) <= s.len(),
    decreases s.len() - from,
{
    if from < s.len() && ident_char(s[from]) {
        lemma_ident_end_bounds(s, from + 1);
    }
}

/// A token that stands at a position of the source spans at least one
/// character and ends inside the source.
pub proof fn lemma_lexeme_fits(src: Seq<char>, pos: int, vars: Seq<Seq<char>>, after_dot: bool)
    requires
        0 <= pos < src.len(),
    ensures
        lexeme_at(src, pos, vars, after_dot) matches Lexeme::Token(_, n) ==> 1 <= n <= src.len()
            - pos,
{
    let c = src[pos];
    let c2 = if pos + 1 < src.len() {
        src[pos + 1]
    } else {
        ' '
    };
    let rest = src.skip(pos);
    match class_of(c, c2, whitespace(c), alphabetic(c)) {
        LexemeClass::Word => {
            assert(ident_char(rest[0]));
            lemma_ident_end_bounds(rest, 1);
        },
        LexemeClass::Number => {
            assert(continues_number(rest, 0));
            lemma_number_end_bounds(rest, 1);
        },
        _ => {},
    }
}

/// The tokens that a scan from a character on yields lie in order inside the
/// source, none before that character.
pub proof fn lemma_scan_in_order(src: Seq<char>, pos: int, vars: Seq<Seq<char>>, after_dot: bool)
    requires
        0 <= pos <= src.len(),
        byte_len(src) <= usize::MAX,
    ensures
        scan(src, pos, vars, after_dot) matches Ok(tokens) ==> in_order(tokens, byte_len(src))
            && forall|i: int|
            0 <= i < tokens.len() ==> (#[trigger] tokens[i]).at >= byte_position(src, pos),
    decreases src.len() - pos,
{
    if pos < src.len() {
        match lexeme_at(src, pos, vars, after_dot) {
            Lexeme::Blank => {
                lemma_scan_in_order(src, pos + 1, vars, after_dot);
                lemma_byte_position_grows(src, pos, pos + 1);
            },
            Lexeme::Token(t, n) => {
                if 1 <= n <= src.len() - pos {
                    lemma_scan_in_order(src, pos + n, vars, t is Dot);
                    lemma_byte_position_grows(src, pos, pos + n);
                    lemma_byte_position_grows(src, 0, pos);
                    if let Ok(rest) = scan(src, pos + n, vars, t is Dot) {
                        let head = placed(src, pos, n as int, t);
                        let tokens = seq![head] + rest;
                        assert forall|i: int| 0 <= i < tokens.len() implies (
                        #[trigger] tokens[i]).len >= 1 && tokens[i].at + tokens[i].len
                            <= byte_len(src) && tokens[i].at >= byte_position(src, pos) by {
                            if i > 0 {
                                assert(tokens[i] == rest[i - 1]);
                            }
                        }
                        assert forall|i: int, j: int| 0 <= i < j < tokens.len() implies (
                        #[trigger] tokens[i]).at + tokens[i].len <= (#[trigger] tokens[j]).at by {
                            assert(tokens[j] == rest[j - 1]);
                            if i > 0 {
                                assert(tokens[i] == rest[i - 1]);
                            }
                        }
                    }
                }
            },
            Lexeme::Fault(_) => {},
        }
    }
}

/// The tokens of an expression lie inside it, each spans at least one
/// byte, and each begins where the one before has ended or later.
pub proof fn lemma_lex_in_order(src: Seq<char>, vars: Seq<Seq<char>>)
    requires
        byte_len(src) <= usize::MAX,
    ensures
        lex(src, vars) matches Ok(tokens) ==> in_order(tokens, byte_len(src)),
{
    lemma_scan_in_order(src, 0, vars, false);
}

proof fn lemma_number_end_bounds(s: Seq<char>, from: int)
    requires
        0 <= from <= s.len(),
    ensures
        from <= number_end(s, from) <= s.len(),
    decreases s.len() - from,
{
    if from < s.len() && continues_number(s, from) {
        lemma_number_end_bounds(s, from + 1);
    }
}

/// Turns the text of an expression into its tokens. `variables` are the names
/// of the inputs that the expression may use.
///
/// The tokens are those that [`lex`] describes. They stand in the order of the
/// source, each inside the source and none over another; their places are
/// byte offsets into the text.
pub fn tokenize(input: &str, variables: &[&str]) -> (r: Result<Vec<TokenContext>, TokenizerError>)
    ensures
        lexes_as(r, lex(input@, names(variables@))),
        r matches Ok(v) ==> in_order(views(v@), byte_len(input@)),
{
    if let Err(e) = check_input_variables(variables) {
        return Err(e);
    }
    if let Err(e) = check_illegal_characters(input) {
        return Err(e);
    }
    let expression = chars_of(input);
    let total = expression.len();
    let bytes = byte_length(input);
    let ghost vars = names(variables@);
    let ghost goal = scan(expression@, 0, vars, false);
    let mut res: Vec<TokenContext> = Vec::new();
    let mut cursor: usize = 0;
    let mut offset: usize = 0;
    proof {
        lemma_byte_position_grows(expression@, 0, 0);
    }
    assert(views(res@) =~= Seq::empty());
    assert(Seq::<TokenContextView>::empty() + goal->Ok_0 =~= goal->Ok_0);
    while cursor < total
        invariant
            cursor <= total,
            total == expression@.len(),
            expression@ == input@,
            bytes == byte_len(expression@),
            offset == byte_position(expression@, cursor as int),
            vars == names(variables@),
            goal == lex(input@, names(variables@)),
            goal == followed_by(
                views(res@),
                scan(expression@, cursor as int, vars, ends_with_dot(views(res@))),
            ),
            in_order(views(res@), offset as int),
        decreases total - cursor,
    {
        let next = expression[cursor];
        let nextnext = if cursor + 1 < total {
            expression[cursor + 1]
        } else {
            ' '
        };
        let ghost done = views(res@);
        proof {
            lemma_byte_position_step(expression@, cursor as int);
            lemma_byte_position_grows(expression@, 0, cursor + 1);
        }
        let found: (Token, usize) = match classify(
            next,
            nextnext,
            is_whitespace(next),
            is_alphabetic(next),
        ) {
            LexemeClass::Blank => {
                offset = offset + char_width(next);
                cursor = cursor + 1;
                continue ;
            },
            LexemeClass::Word => {
                let rest = vstd::slice::slice_subrange(expression.as_slice(), cursor, total);
                assert(rest@ == expression@.skip(cursor as int));
                let previous = if res.len() > 0 {
                    Some(&res[res.len() - 1])
                } else {
                    None
                };
                assert(is_dot(previous) == ends_with_dot(done));
                match parse_identifier(rest, offset, variables, previous) {
                    Ok(pair) => pair,
                    Err(e) => {
                        return Err(e);
                    },
                }
            },
            LexemeClass::Number => {
                let rest = vstd::slice::slice_subrange(expression.as_slice(), cursor, total);
                assert(rest@ == expression@.skip(cursor as int));
                proof {
                    assert(continues_number(rest@, 0));
                    lemma_number_end_bounds(rest@, 1);
                }
                match parse_number(rest) {
                    Some(pair) => pair,
                    None => {
                        return Err(TokenizerError::InvalidNumberFormat(offset));
                    },
                }
            },
            LexemeClass::Special => {
                match parse_special_characters(next, nextnext) {
                    Some(pair) => pair,
                    None => {
                        return Err(TokenizerError::SyntaxError(offset));
                    },
                }
            },
            LexemeClass::Invalid => {
                return Err(TokenizerError::InvalidCharacter(next, offset));
            },
        };
        let (token, size) = found;
        assert(1 <= size <= total - cursor);
        proof {
            lemma_byte_position_grows(expression@, cursor as int, cursor + size);
        }
        let span = byte_span(expression.as_slice(), cursor, cursor + size);
        let ghost rest_scan = scan(expression@, cursor + size, vars, token@ is Dot);
        let context = TokenContext { token, at: offset, len: span };
        assert(context@ == placed(expression@, cursor as int, size as int, token@));
        res.push(context);
        assert(views(res@) =~= done.push(context@));
        assert(rest_scan is Ok ==> done + (seq![context@] + rest_scan->Ok_0) =~= done.push(
            context@,
        ) + rest_scan->Ok_0);
        cursor = cursor + size;
        offset = offset + span;
    }
    proof {
        lemma_byte_position_grows(expression@, 0, total as int);
    }
    assert(views(res@) + Seq::<TokenContextView>::empty() =~= views(res@));
    Ok(res)
}

impl TokenStream {
    /// The tokens in reverse order, each copied.
    fn reversed(tokens: &Vec<TokenContext>) -> (r: Vec<TokenContext>)
        ensures
            r@.len() == tokens@.len(),
            forall|i: int| 0 <= i < r@.len() ==> r@[i] == tokens@[tokens@.len() - 1 - i],
    {
        let mut r: Vec<TokenContext> = Vec::new();
        let mut left: usize = tokens.len();
        while left > 0
            invariant
                left <= tokens@.len(),
                r@.len() == tokens@.len() - left,
                forall|i: int| 0 <= i < r@.len() ==> r@[i] == tokens@[tokens@.len() - 1 - i],
            decreases left,
        {
            left = left - 1;
            r.push(tokens[left].clone());
        }
        r
    }

    /// Takes a new expression with the names of its inputs, and scans it.
    ///
    /// On success the stream holds the tokens that [`lex`] describes, none of
    /// them handed out yet. On an error it holds no token, and keeps the error.
    pub fn update(&mut self, expression: &str, variables: &[&str]) -> (r: Result<
        (),
        TokenizerError,
    >)
        ensures
            final(self).source() == expression@,
            final(self).end() == byte_len(expression@),
            final(self).inputs() == names(variables@),
            match lex(expression@, names(variables@)) {
                Ok(t) => r is Ok && final(self).all() == t && final(self).rest() == t
                    && final(self).error() is None && in_order(t, byte_len(expression@)),
                Err(e) => r matches Err(x) && x@ == e && final(self).all().len() == 0
                    && final(self).rest().len() == 0 && final(self).error() == Some(x),
            },
    {
        self.expr = String::from_str(expression);
        self.end = byte_length(expression);
        let mut var: Vec<String> = Vec::new();
        let mut i: usize = 0;
        while i < variables.len()
            invariant
                i <= variables@.len(),
                var@.len() == i,
                forall|k: int| 0 <= k < i ==> (#[trigger] var@[k])@ == variables@[k]@,
            decreases variables@.len() - i,
        {
            var.push(String::from_str(variables[i]));
            i = i + 1;
        }
        self.var = var;
        assert(self.inputs() =~= names(variables@));
        match tokenize(expression, variables) {
            Ok(v) => {
                self.tokens_reversed = Self::reversed(&v);
                self.tokens = v;
                self.err = None;
                assert(self.rest() =~= self.all());
                Ok(())
            },
            Err(e) => {
                self.tokens = Vec::new();
                self.tokens_reversed = Vec::new();
                self.err = Some(e.clone());
                Err(e)
            },
        }
    }
}

} // verus!
