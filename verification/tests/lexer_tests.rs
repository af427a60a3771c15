use dymex::{
    check_illegal_characters, check_input_variables, classify, constant_of, function_of,
    ident_char_given, parse_identifier, parse_number, parse_special_characters, tokenize, word_token,
    ArithmeticOperator, Constant, Function, LexemeClass, NumberLiteral, Token, TokenContext,
    TokenStream, TokenizerError,
};

const ZERO_THR: f64 = 1E2 * f64::EPSILON;
const REL_ERR: f64 = 1E2 * f64::EPSILON;

fn approx_eq(x1: f64, x2: f64) -> bool {
    if x1.abs() < ZERO_THR && x2.abs() < ZERO_THR {
        return true;
    }
    if 2.0 * (x1 - x2).abs() / (x1 + x2).abs() > REL_ERR {
        return false;
    }
    true
}

fn charslice(s: &str) -> Vec<char> {
    s.chars().collect()
}

fn number(x: f64) -> Token {
    Token::Number(NumberLiteral::new(&format!("{:?}", x)).unwrap())
}

fn value_of(t: &Token) -> f64 {
    match t {
        Token::Number(x) => x.as_str().parse::<f64>().unwrap(),
        other => panic!("not a number: {:?}", other),
    }
}

fn same_num_tokens(t1: Token, t2: Token) -> bool {
    match (&t1, &t2) {
        (Token::Number(_), Token::Number(_)) => approx_eq(value_of(&t1), value_of(&t2)),
        _ => false,
    }
}

fn same_token(l: &Token, r: &Token) -> bool {
    match (l, r) {
        (Token::Number(_), Token::Number(_)) => value_of(l) == value_of(r),
        _ => l == r,
    }
}

fn same_tokens(tokens1: &[Token], tokens2: &[Token]) -> bool {
    if tokens1.len() != tokens2.len() {
        return false;
    }
    tokens1.iter().zip(tokens2.iter()).all(|(l, r)| same_token(l, r))
}

fn unwrap_contexts(tcs: &[TokenContext]) -> Vec<Token> {
    tcs.iter().cloned().map(|tc| tc.token).collect()
}

fn number_of(s: &str) -> Option<(f64, usize)> {
    parse_number(&charslice(s)).map(|(t, n)| (value_of(&t), n))
}

#[test]
fn lexer_test_invalid_names() {
    assert_eq!(
        check_input_variables(&["pi"]),
        Err(TokenizerError::InvalidVariableName(
            "pi".into(),
            "This is a reserved keyword, please choose a different name!"
        ))
    );
    assert_eq!(check_input_variables(&["ip"]), Ok(()));
}

#[test]
fn lexer_test_characters() {
    assert_eq!(check_illegal_characters("([{"), Err(TokenizerError::InvalidCharacter('{', 2)));
    assert_eq!(check_illegal_characters("(a0bcdϕ.[:]π!=<>))"), Ok(()));
}

#[test]
fn lexer_test_number() {
    assert_eq!(number_of("0.123+pi"), Some((0.123, 5)));
    assert_eq!(number_of("0.2E1 + XXX"), Some((2.0, 5)));
    assert_eq!(number_of("20.0e-1"), Some((2.0, 7)));
    assert_eq!(number_of("8 "), Some((8.0, 1)));
    assert_eq!(number_of("2.0*pi "), Some((2.0, 3)));
    assert_eq!(number_of("-1.0"), Some((-1.0, 4)));
    assert_eq!(number_of("-1.0e-1"), Some((-0.1, 7)));
}

#[test]
fn lexer_test_identifier() {
    let input_vars = vec!["a", "center", "eV2nm"];
    let start = 13;

    let id = &charslice("max(15)");
    let res = parse_identifier(id, start, &input_vars, None);
    assert!(matches!(res, Ok((Token::Func(Function::Max, _), 3))));

    let id = &charslice("_center");
    let res = parse_identifier(id, start, &input_vars, None);
    assert_eq!(res, Err(TokenizerError::UndefinedVariable(start, "_center".into())));

    let id = &charslice("center*5");
    let res = parse_identifier(id, start, &input_vars, None);
    assert_eq!(res, Ok((Token::Var("center".into()), 6)));

    let id = &charslice("pi^2");
    let res = parse_identifier(id, start, &input_vars, None);
    assert_eq!(res, Ok((Token::Const(Constant::Pi), 2)));

    let id = &charslice("π^2");
    let res = parse_identifier(id, start, &input_vars, None);
    assert_eq!(res, Ok((Token::Const(Constant::Pi), 1)));

    let id = &charslice("eV2nm * λ");
    let res = parse_identifier(id, start, &input_vars, None);
    assert_eq!(res, Ok((Token::Var("eV2nm".into()), 5)));
}

#[test]
fn lexer_test_tokenizer_expr1() {
    let input_var = &["x", "y"];
    let expr1 = "(2.0*pi * exp(-x*x)) / max(1.0 + sqrt(y), 0)";
    let expr2 = "(2.0*pi*exp(-x*x))/max(1.0+sqrt(y),0)";
    let expr3 = "(2.0 * pi *exp( -x * x)) / max(1.0 + sqrt(y), 0)   ";

    let target = &[
        Token::LP,
        number(2.0),
        Token::ArOp(ArithmeticOperator::Mul),
        Token::Const(Constant::Pi),
        Token::ArOp(ArithmeticOperator::Mul),
        Token::Func(Function::Exp, 1),
        Token::LP,
        Token::ArOp(ArithmeticOperator::Minus),
        Token::Var("x".into()),
        Token::ArOp(ArithmeticOperator::Mul),
        Token::Var("x".into()),
        Token::RP,
        Token::RP,
        Token::ArOp(ArithmeticOperator::Div),
        Token::Func(Function::Max, 64),
        Token::LP,
        number(1.0),
        Token::ArOp(ArithmeticOperator::Plus),
        Token::Func(Function::Sqrt, 1),
        Token::LP,
        Token::Var("y".into()),
        Token::RP,
        Token::Comma,
        number(0.0),
        Token::RP,
    ];

    let res1 = tokenize(expr1, input_var).unwrap();
    let res2 = tokenize(expr2, input_var).unwrap();
    let res3 = tokenize(expr3, input_var).unwrap();
    assert!(same_tokens(&unwrap_contexts(&res1), target));
    assert!(same_tokens(&unwrap_contexts(&res2), target));
    assert!(same_tokens(&unwrap_contexts(&res3), target));
}

#[test]
fn lexer_test_tokenizer_expr2() {
    let input_var = &["spectrum"];
    let expr = "spectrum.x[-1] - spectrum.x[0]";
    let res = tokenize(expr, input_var).unwrap();
    let target = &[
        Token::Var("spectrum".into()),
        Token::Dot,
        Token::Var("x".into()),
        Token::LB,
        number(-1.0),
        Token::RB,
        Token::ArOp(ArithmeticOperator::Minus),
        Token::Var("spectrum".into()),
        Token::Dot,
        Token::Var("x".into()),
        Token::LB,
        number(0.0),
        Token::RB,
    ];

    assert!(same_tokens(&unwrap_contexts(&res), target));
}

#[test]
fn lexer_test_tokenizer_expr3() {
    let input_var = &["a"];
    let expr1 = "a.b";
    let expr2 = "b.a";
    let target1 = &[Token::Var("a".into()), Token::Dot, Token::Var("b".into())];

    let res1 = tokenize(expr1, input_var).unwrap();
    let res2 = tokenize(expr2, input_var);
    assert!(same_tokens(&unwrap_contexts(&res1), target1));
    assert!(matches!(res2, Err(TokenizerError::UndefinedVariable(_, _))));
}

#[test]
fn lexer_test_tokenizer_expr4() {
    let input_var = &["v"];
    let expr = "v[0:-1]";
    let target = &[
        Token::Var("v".into()),
        Token::LB,
        number(0.0),
        Token::Colon,
        number(-1.0),
        Token::RB,
    ];

    let res = tokenize(expr, input_var).unwrap();
    assert!(same_tokens(&unwrap_contexts(&res), target));
}

#[test]
fn lexer_test_tokenstream1() {
    let mut ts = TokenStream::new();
    let expr = "(1 + x) * 3";
    let _ = ts.update(expr, &vec!["x"]).unwrap();
    let mut printed = Vec::new();
    for t in ts.tokens {
        println!("{}", t.token.to_string());
        printed.push(t.token.to_string());
    }
    assert_eq!(printed, vec!["(", "1", "+", "x", ")", "*", "3"]);
}

#[test]
fn test_allowed_num_edgecases() {
    let (t, _) = parse_number(&charslice("2.0O3")).unwrap();
    assert_eq!(value_of(&t), 2.0);

    let (t, size) = parse_number(&charslice("12,34")).unwrap();
    assert_eq!(value_of(&t), 12.0);
    assert_eq!(size, 2);

    assert!(parse_number(&charslice("1.2E+2")).is_none());

    let (t, size) = parse_number(&charslice("1.2E-2")).unwrap();
    assert!(same_num_tokens(t, number(0.012)));
    assert_eq!(size, 6);

    let (t, size) = parse_number(&charslice("1_000_000")).unwrap();
    assert!(same_num_tokens(t, number(1E6)));
    assert_eq!(size, 9);
}

#[test]
fn test_number_errors1() {
    let expr = "y*(x + 12.34.5)";
    let res = tokenize(expr, &["x", "y"]);
    if let Err(e) = res {
        assert!(matches!(e, TokenizerError::InvalidNumberFormat(7)));
        println!("{}", e.user_message().to_string());
    } else {
        panic!()
    }
}

#[test]
fn test_number_errors2() {
    let expr = "   12.34e-x";
    let res = tokenize(expr, &["x"]);
    if let Err(e) = res {
        assert!(matches!(e, TokenizerError::InvalidNumberFormat(3)));
        println!("{}", e.user_message().to_string());
    } else {
        panic!()
    }
}

fn places(tcs: &[TokenContext]) -> Vec<(usize, usize)> {
    tcs.iter().map(|tc| (tc.at, tc.len)).collect()
}

#[test]
fn tokens_carry_their_places() {
    let res = tokenize("  max(ab, 1.5e3) ** x", &["ab", "x"]).unwrap();
    assert_eq!(
        places(&res),
        vec![(2, 3), (5, 1), (6, 2), (8, 1), (10, 5), (15, 1), (17, 2), (20, 1)]
    );
    assert_eq!(res[0].token, Token::Func(Function::Max, 64));
    assert_eq!(res[6].token, Token::ArOp(ArithmeticOperator::Pow));
}

#[test]
fn tokens_lie_inside_the_source_in_rising_order() {
    let sources = [
        "(2.0*pi * exp(-x*x)) / max(1.0 + sqrt(y), 0)",
        "x.y[ -1 ] >= 1_000 != x",
        "π+x",
        "ϕ0 * π / 2",
        "",
        "   ",
    ];
    for source in sources {
        let count = source.len();
        let res = tokenize(source, &["x", "y", "ϕ0"]).unwrap();
        let mut end = 0;
        for tc in &res {
            assert!(tc.len >= 1);
            assert!(tc.at >= end);
            assert!(tc.at + tc.len <= count);
            assert!(source.is_char_boundary(tc.at));
            assert!(source.is_char_boundary(tc.at + tc.len));
            end = tc.at + tc.len;
        }
    }
}

#[test]
fn positions_are_byte_offsets() {
    let source = "π * ϕ0";
    let res = tokenize(source, &["ϕ0"]).unwrap();
    assert_eq!(places(&res), vec![(0, 2), (3, 1), (5, 3)]);
    assert_eq!(res[0].token, Token::Const(Constant::Pi));
    assert_eq!(res[2].token, Token::Var("ϕ0".into()));
    let texts: Vec<&str> = res.iter().map(|tc| &source[tc.at..tc.at + tc.len]).collect();
    assert_eq!(texts, vec!["π", "*", "ϕ0"]);

    let res = tokenize("𝑥 + 1_0", &["𝑥"]).unwrap();
    assert_eq!(places(&res), vec![(0, 4), (5, 1), (7, 3)]);
}

#[test]
fn error_positions_are_byte_offsets() {
    assert_eq!(check_illegal_characters("π#"), Err(TokenizerError::InvalidCharacter('#', 2)));
    assert_eq!(tokenize("π#", &[]), Err(TokenizerError::InvalidCharacter('#', 2)));
    assert_eq!(
        check_illegal_characters("ϕ ⋅ ˝"),
        Err(TokenizerError::InvalidCharacter('˝', 7))
    );
    assert_eq!(tokenize("π ~", &[]), Err(TokenizerError::InvalidCharacter('~', 3)));
    assert_eq!(tokenize("π ! 2", &[]), Err(TokenizerError::SyntaxError(3)));
    assert_eq!(tokenize("π + 1e", &[]), Err(TokenizerError::InvalidNumberFormat(5)));
    assert_eq!(
        tokenize("π * ϕ", &[]),
        Err(TokenizerError::UndefinedVariable(5, "ϕ".into()))
    );
    assert_eq!(tokenize("π × 2", &[]), Err(TokenizerError::InvalidCharacter('×', 3)));
    for text in ["a ⋅ b $", "π#", "˝", "x{π}"] {
        if let Err(TokenizerError::InvalidCharacter(c, at)) = check_illegal_characters(text) {
            assert!(text[at..].starts_with(c));
        } else {
            panic!()
        }
    }
}

#[test]
fn the_end_token_stands_at_the_byte_length() {
    let mut ts = TokenStream::new();
    ts.update("π +", &[]).unwrap();
    assert_eq!(ts.eof().at, 4);
    assert_eq!(places(ts.all_tokens()), vec![(0, 2), (3, 1)]);
}

#[test]
fn the_caret_stands_under_the_character() {
    let e = tokenize("π × $", &[]).unwrap_err();
    assert_eq!(e, TokenizerError::InvalidCharacter('$', 6));
    assert_eq!(
        e.user_message().full_message("π × $"),
        "Invalid character: $\nπ × $\n    ^\nThe following charaters are invalid: #?˝`'&|$@%{}\n"
    );
    let e = tokenize("ϕϕ + z", &["ϕϕ"]).unwrap_err();
    assert_eq!(e, TokenizerError::UndefinedVariable(7, "z".into()));
    assert_eq!(e.user_message().full_message("ϕϕ + z"), "Undefined variable: z\nϕϕ + z\n     ^\n");
}

#[test]
fn a_lowercase_word_names_its_function_or_constant() {
    assert_eq!(function_of("sin"), Some(Token::Func(Function::Sin, 1)));
    assert_eq!(function_of("mean"), Some(Token::Func(Function::Avg, 64)));
    assert_eq!(function_of("cotan"), Some(Token::Func(Function::Cot, 1)));
    assert_eq!(function_of("Sin"), None);
    assert_eq!(function_of("pi"), None);
    assert_eq!(constant_of("pi"), Some(Token::Const(Constant::Pi)));
    assert_eq!(constant_of("π"), Some(Token::Const(Constant::Pi)));
    assert_eq!(constant_of("e"), Some(Token::Const(Constant::Euler)));
    assert_eq!(constant_of("sqrt3"), Some(Token::Const(Constant::Sqrt3)));
    assert_eq!(constant_of("E"), None);
    assert_eq!(constant_of("sqrt"), None);
}

#[test]
fn a_word_is_a_function_then_a_constant_then_a_name() {
    assert_eq!(word_token("MAX", "max", 0, &["MAX"], None), Ok(Token::Func(Function::Max, 64)));
    assert_eq!(word_token("Pi", "pi", 0, &[], None), Ok(Token::Const(Constant::Pi)));
    assert_eq!(word_token("Ab", "ab", 3, &["Ab"], None), Ok(Token::Var("Ab".into())));
    assert_eq!(
        word_token("Ab", "ab", 3, &["ab"], None),
        Err(TokenizerError::UndefinedVariable(3, "Ab".into()))
    );
    let dot = TokenContext { token: Token::Dot, at: 1, len: 1 };
    assert_eq!(word_token("Ab", "ab", 3, &[], Some(&dot)), Ok(Token::Var("Ab".into())));
}

#[test]
fn letters_digits_and_the_underscore_make_identifiers() {
    assert!(ident_char_given('x', true));
    assert!(ident_char_given('7', false));
    assert!(ident_char_given('_', false));
    assert!(!ident_char_given('-', false));
    assert!(!ident_char_given('.', false));
    assert!(!ident_char_given(' ', false));
}

#[test]
fn a_character_begins_what_its_class_says() {
    assert_eq!(classify(' ', 'x', true, false), LexemeClass::Blank);
    assert_eq!(classify('x', '1', false, true), LexemeClass::Word);
    assert_eq!(classify('_', '1', false, false), LexemeClass::Word);
    assert_eq!(classify('7', 'x', false, false), LexemeClass::Number);
    assert_eq!(classify('-', '7', false, false), LexemeClass::Number);
    assert_eq!(classify('-', ' ', false, false), LexemeClass::Special);
    assert_eq!(classify('-', '-', false, false), LexemeClass::Special);
    assert_eq!(classify('π', ' ', false, false), LexemeClass::Special);
    assert_eq!(classify('~', ' ', false, false), LexemeClass::Invalid);
    assert_eq!(classify('×', ' ', false, false), LexemeClass::Invalid);
    assert_eq!(
        parse_special_characters('-', ' '),
        Some((Token::ArOp(ArithmeticOperator::Minus), 1))
    );
}

#[test]
fn every_lexical_error_has_its_input() {
    assert_eq!(tokenize("1 ! 2", &[]), Err(TokenizerError::SyntaxError(2)));
    assert_eq!(tokenize("1 ~ 2", &[]), Err(TokenizerError::InvalidCharacter('~', 2)));
    assert_eq!(tokenize("1 # 2", &[]), Err(TokenizerError::InvalidCharacter('#', 2)));
    assert_eq!(tokenize("2 + 1e", &[]), Err(TokenizerError::InvalidNumberFormat(4)));
    assert_eq!(
        tokenize("2 + z", &["x"]),
        Err(TokenizerError::UndefinedVariable(4, "z".into()))
    );
    assert_eq!(
        tokenize("2", &["x", "sum"]),
        Err(TokenizerError::InvalidVariableName(
            "sum".into(),
            "This is a reserved keyword, please choose a different name!"
        ))
    );
}

#[test]
fn reserved_names_are_checked_before_characters_and_characters_before_tokens() {
    assert!(matches!(
        tokenize("# z", &["log10"]),
        Err(TokenizerError::InvalidVariableName(_, _))
    ));
    assert_eq!(tokenize("z # 1e", &[]), Err(TokenizerError::InvalidCharacter('#', 2)));
}

#[test]
fn invalid_characters_are_looked_for_in_a_fixed_order() {
    assert_eq!(check_illegal_characters("{#"), Err(TokenizerError::InvalidCharacter('#', 1)));
    assert_eq!(check_illegal_characters("a}b{"), Err(TokenizerError::InvalidCharacter('{', 3)));
    assert_eq!(check_illegal_characters("a%b"), Err(TokenizerError::InvalidCharacter('%', 1)));
    assert_eq!(check_illegal_characters("˝"), Err(TokenizerError::InvalidCharacter('˝', 0)));
    assert_eq!(check_illegal_characters(""), Ok(()));
}

#[test]
fn every_reserved_name_is_refused() {
    let reserved = [
        "min", "max", "avg", "mean", "std", "sum", "sin", "cos", "tan", "cotan", "abs", "exp",
        "log", "log2", "log10", "sqrt", "pi", "e", "sqrt2", "sqrt3",
    ];
    for name in reserved {
        assert!(check_input_variables(&["a", name]).is_err(), "{}", name);
    }
    assert_eq!(check_input_variables(&["Min", "e0", "pie", "x"]), Ok(()));
    assert_eq!(check_input_variables(&[]), Ok(()));
}

#[test]
fn special_characters_make_their_tokens() {
    let res = tokenize("( ) [ ] . , : + - * / ^ = < > ** += -= *= /= == >= <= !=", &[]).unwrap();
    let tokens = unwrap_contexts(&res);
    let expected = vec![
        Token::LP,
        Token::RP,
        Token::LB,
        Token::RB,
        Token::Dot,
        Token::Comma,
        Token::Colon,
        Token::ArOp(ArithmeticOperator::Plus),
        Token::ArOp(ArithmeticOperator::Minus),
        Token::ArOp(ArithmeticOperator::Mul),
        Token::ArOp(ArithmeticOperator::Div),
        Token::ArOp(ArithmeticOperator::Pow),
        Token::AssignOp(dymex::AssignmentOperator::Assign),
        Token::RelOp(dymex::RelationalOperator::Lesser),
        Token::RelOp(dymex::RelationalOperator::Greater),
        Token::ArOp(ArithmeticOperator::Pow),
        Token::AssignOp(dymex::AssignmentOperator::PlusEq),
        Token::AssignOp(dymex::AssignmentOperator::MinusEq),
        Token::AssignOp(dymex::AssignmentOperator::TimesEq),
        Token::AssignOp(dymex::AssignmentOperator::DivideEq),
        Token::RelOp(dymex::RelationalOperator::Eq),
        Token::RelOp(dymex::RelationalOperator::Geq),
        Token::RelOp(dymex::RelationalOperator::Leq),
        Token::RelOp(dymex::RelationalOperator::Neq),
    ];
    assert_eq!(tokens, expected);
}

#[test]
fn function_names_are_read_in_any_case() {
    let res = tokenize("MAX(Sin(1), COTAN(2), mean(3), Log(4), log2(5))", &[]).unwrap();
    let tokens = unwrap_contexts(&res);
    assert_eq!(tokens[0], Token::Func(Function::Max, 64));
    assert_eq!(tokens[2], Token::Func(Function::Sin, 1));
    assert_eq!(tokens[7], Token::Func(Function::Cot, 1));
    assert_eq!(tokens[12], Token::Func(Function::Avg, 64));
    assert_eq!(tokens[17], Token::Func(Function::Log, 1));
    assert_eq!(tokens[22], Token::Func(Function::Log2, 1));
}

#[test]
fn constants_are_read_by_name() {
    let res = tokenize("pi + e + sqrt2 + sqrt3 + PI", &[]).unwrap();
    let tokens = unwrap_contexts(&res);
    assert_eq!(tokens[0], Token::Const(Constant::Pi));
    assert_eq!(tokens[2], Token::Const(Constant::Euler));
    assert_eq!(tokens[4], Token::Const(Constant::Sqrt2));
    assert_eq!(tokens[6], Token::Const(Constant::Sqrt3));
    assert_eq!(tokens[8], Token::Const(Constant::Pi));
}

#[test]
fn a_minus_before_a_digit_belongs_to_the_number() {
    let res = tokenize("a-1", &["a"]).unwrap();
    let tokens = unwrap_contexts(&res);
    assert_eq!(tokens.len(), 2);
    assert_eq!(value_of(&tokens[1]), -1.0);

    let res = tokenize("a - b", &["a", "b"]).unwrap();
    let tokens = unwrap_contexts(&res);
    assert_eq!(tokens[1], Token::ArOp(ArithmeticOperator::Minus));
}

#[test]
fn numbers_follow_the_grammar() {
    assert_eq!(number_of("1."), Some((1.0, 2)));
    assert_eq!(number_of("1.e2"), Some((100.0, 4)));
    assert_eq!(number_of("12e-2x"), Some((0.12, 5)));
    assert_eq!(number_of("1e+2"), None);
    assert_eq!(number_of("1E-2"), Some((0.01, 4)));
    assert_eq!(number_of("1_0.2_5"), Some((10.25, 7)));
    assert_eq!(number_of("1_"), Some((1.0, 1)));
    assert_eq!(number_of("1__0"), Some((1.0, 1)));
    assert_eq!(number_of("1e5-3"), Some((1e5, 3)));
    assert_eq!(number_of("7-3"), Some((7.0, 1)));
    assert_eq!(number_of("1.2.3"), None);
    assert_eq!(number_of("1e2e3"), None);
    assert_eq!(number_of("1e"), None);
    assert_eq!(number_of("1e-"), None);
    assert_eq!(number_of("-"), None);
    assert_eq!(number_of("."), None);
    assert_eq!(number_of(""), None);
    assert_eq!(number_of("x1"), None);
}

#[test]
fn literals_are_numbers_of_the_grammar_only() {
    for text in ["0", "-0", "1.", ".5", "-.5", "1e5", "1E-5", "1e-5", "12.34e56"] {
        let literal = NumberLiteral::new(text).unwrap();
        assert_eq!(literal.as_str(), text);
        assert!(text.parse::<f64>().is_ok());
    }
    for text in [
        "", "-", ".", "e5", "1e", "1e+", "1e+5", "1E+9", "1_000", "+1", "--1", "1.2.3", "1e2.5",
        "inf", " 1",
    ] {
        assert_eq!(NumberLiteral::new(text), None, "{:?}", text);
    }
}

#[test]
fn a_word_behind_a_dot_is_a_name() {
    let res = tokenize("a . b", &["a"]).unwrap();
    assert_eq!(unwrap_contexts(&res)[2], Token::Var("b".into()));
    let res = tokenize("a.sin", &["a"]).unwrap();
    assert_eq!(unwrap_contexts(&res)[2], Token::Func(Function::Sin, 1));
}

#[test]
fn the_stream_hands_out_its_tokens_once() {
    let mut ts = TokenStream::new();
    assert_eq!(ts.peek().token, Token::Eof);
    ts.update("x + 1", &["x"]).unwrap();
    assert_eq!(ts.peek().token, Token::Var("x".into()));
    assert_eq!(ts.next().token, Token::Var("x".into()));
    assert_eq!(ts.next().token, Token::ArOp(ArithmeticOperator::Plus));
    let one = ts.next();
    assert_eq!((one.at, one.len), (4, 1));
    let end = ts.next();
    assert_eq!(end, TokenContext::new(Token::Eof, 5, 0));
    assert_eq!(ts.next(), ts.eof());
    assert_eq!(ts.tokens.len(), 3);
}

#[test]
fn a_failed_scan_leaves_no_tokens() {
    let mut ts = TokenStream::new();
    ts.update("x + 1", &["x"]).unwrap();
    assert_eq!(ts.update("x + $", &["x"]), Err(TokenizerError::InvalidCharacter('$', 4)));
    assert!(ts.tokens.is_empty());
    assert_eq!(ts.next().token, Token::Eof);
}

#[test]
fn streams_are_identical_by_their_tokens() {
    let mut a = TokenStream::new();
    let mut b = TokenStream::new();
    a.update("x+1", &["x"]).unwrap();
    b.update(" x  +  1 ", &["x"]).unwrap();
    assert!(a.identical(&b));
    b.update("x+2", &["x"]).unwrap();
    assert!(!a.identical(&b));
    b.update("x+1+1", &["x"]).unwrap();
    assert!(!a.identical(&b));
}

#[test]
fn messages_say_what_is_wrong_and_where() {
    let e = tokenize("1 + $", &[]).unwrap_err();
    let message = e.user_message();
    assert_eq!(message.to_string(), "Invalid character: $\n");
    assert_eq!(
        message.full_message("1 + $"),
        "Invalid character: $\n1 + $\n    ^\nThe following charaters are invalid: #?˝`'&|$@%{}\n"
    );

    let e = tokenize("1 + z", &[]).unwrap_err();
    assert_eq!(e.user_message().full_message("1 + z"), "Undefined variable: z\n1 + z\n    ^\n");

    let e = tokenize("12.3.4", &[]).unwrap_err();
    assert_eq!(
        e.user_message().full_message("12.3.4"),
        "Invalid number formatting:\n12.3.4\n^\nValid formats are: 1, 3.14, 1e-10, 1.23E10, 1_000_000\n"
    );

    let e = tokenize("1", &["pi"]).unwrap_err();
    assert_eq!(
        e.user_message().full_message("1"),
        "Invalid variable name: pi\n1\nThis is a reserved keyword, please choose a different name!\n"
    );

    let e = tokenize("!", &[]).unwrap_err();
    assert_eq!(e.user_message().full_message("!"), "Syntax error:\n!\n^\n");
}

#[test]
fn tokens_print_as_they_are_written() {
    assert_eq!(Token::ArOp(ArithmeticOperator::Pow).to_string(), "**");
    assert_eq!(Token::RelOp(dymex::RelationalOperator::Neq).to_string(), "≠");
    assert_eq!(Token::LogicOp(dymex::LogicalOperator::And).to_string(), "and");
    assert_eq!(Token::AssignOp(dymex::AssignmentOperator::DivideEq).to_string(), "/=");
    assert_eq!(Token::Const(Constant::Pi2).to_string(), "π²");
    assert_eq!(Token::Const(Constant::SqrtPi).to_string(), "√π");
    assert_eq!(Token::Func(Function::Log10, 1).to_string(), "Log10");
    assert_eq!(number(1.5).to_string(), "1.5");
    assert_eq!(Token::Var("mass".into()).to_string(), "mass");
    assert_eq!(Token::Semicolon.to_string(), ";");
    assert_eq!(Token::Eof.to_string(), "Eof");
}

#[test]
fn constants_have_the_bits_of_their_values() {
    assert_eq!(f64::from_bits(Constant::Pi.value()), std::f64::consts::PI);
    assert_eq!(f64::from_bits(Constant::Euler.value()), std::f64::consts::E);
    assert_eq!(f64::from_bits(Constant::PiTimes2.value()), std::f64::consts::TAU);
    assert_eq!(f64::from_bits(Constant::Sqrt2.value()), std::f64::consts::SQRT_2);
    assert_eq!(f64::from_bits(Constant::Sqrt3.value()), 1.73205080757);
    assert_eq!(f64::from_bits(Constant::SqrtPi.value()), 1.77245385091);
    assert_eq!(
        f64::from_bits(Constant::Pi2.value()),
        std::f64::consts::PI * std::f64::consts::PI
    );
}

#[test]
fn test_invalid_names() {
    assert_eq!(
        check_input_variables(&["pi"]),
        Err(TokenizerError::InvalidVariableName(
            "pi".into(),
            "This is a reserved keyword, please choose a different name!"
        ))
    );
    assert_eq!(check_input_variables(&["ip"]), Ok(()));
}

#[test]
fn test_characters() {
    assert_eq!(check_illegal_characters("([{"), Err(TokenizerError::InvalidCharacter('{', 2)));
    assert_eq!(check_illegal_characters("(a0bcdϕ.[:]π!=<>))"), Ok(()));
}
