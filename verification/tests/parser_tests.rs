use dymex::{
    check_parens, ArithmeticOperator, Branch, Constant, Function, NumberLiteral, ParsingError,
    Token, TokenContext, TokenStream, AST,
};

fn number(text: &str) -> Token {
    Token::Number(NumberLiteral::new(text).unwrap())
}

fn test_parsing(expr: &str, var: &[&str], rpn: &str) {
    let mut ts = TokenStream::new();
    let _ = ts.update(expr, var);
    let mut ast = AST::new(ts);
    let success = ast.parse_tokens();
    assert!(matches!(success, Ok(())));
    assert_eq!(ast.rpn_repr(), rpn);
}

#[test]
fn test_rpn() {
    let a1 = Branch::Atom(TokenContext::dummy(number("1")));
    let a2 = Branch::Atom(TokenContext::dummy(number("2")));
    let a3 = Branch::Atom(TokenContext::dummy(number("3")));
    let a4 = Branch::Atom(TokenContext::dummy(number("4")));
    let a5 = Branch::Atom(TokenContext::dummy(number("5")));
    let a6 = Branch::Atom(TokenContext::dummy(Token::Const(Constant::Pi)));
    let a7 = Branch::Atom(TokenContext::dummy(number("2")));

    let a8 = Branch::Atom(TokenContext::dummy(Token::Var("r".into())));
    let a9 = Branch::Atom(TokenContext::dummy(Token::Var("x".into())));
    let a10 = Branch::Atom(TokenContext::dummy(number("1.23")));

    let ex1 = Branch::Expression(TokenContext::dummy(Token::Func(Function::Max, 10)), vec![a2, a3, a4]);
    let ex2 = Branch::Expression(TokenContext::dummy(Token::ArOp(ArithmeticOperator::Pow)), vec![a6, a7]);
    let ex3 = Branch::Expression(TokenContext::dummy(Token::Dot), vec![a8, a9]);

    let ex4 = Branch::Expression(TokenContext::dummy(Token::ArOp(ArithmeticOperator::Mul)), vec![ex1, a5]);
    let ex5 = Branch::Expression(TokenContext::dummy(Token::ArOp(ArithmeticOperator::Plus)), vec![ex3, a10]);

    let ex6 = Branch::Expression(TokenContext::dummy(Token::ArOp(ArithmeticOperator::Plus)), vec![a1, ex4]);
    let ex7 = Branch::Expression(TokenContext::dummy(Token::ArOp(ArithmeticOperator::Plus)), vec![ex6, ex2]);

    let full_expr =
        Branch::Expression(TokenContext::dummy(Token::ArOp(ArithmeticOperator::Div)), vec![ex7, ex5]);
    println!("{}", full_expr.rpn_colored().concat());
    let s = full_expr.as_rpn_str();

    let num_lp = s.chars().filter(|c| *c == '(').count();
    assert_eq!(num_lp, 8);
    assert_eq!(
        s,
        "(/: (+: (+: 1, (*: (Max: 2, 3, 4), 5)), (**: π, 2)), (+: (.: r, x), 1.23))"
    );
}

#[test]
fn test_simple_expressions() {
    test_parsing("1 + 2 * 3", &vec![], "(+: 1, (*: 2, 3))");
    test_parsing("(1 + x) * 3", &vec!["x"], "(*: (+: 1, x), 3)");
    test_parsing("((pi + x)**2 - 3) / 3", &vec!["x"], "(/: (-: (**: (+: π, x), 2), 3), 3)");
}

#[test]
fn test_simple_functions() {
    test_parsing("max(0, sqrt(min(1,2,3,4)))", &vec![], "(Max: 0, (Sqrt: (Min: 1, 2, 3, 4)))");
}

#[test]
fn test_indexing() {
    test_parsing("v[1:-1]", &vec!["v"], "([: v, (:: 1, -1))");
}

#[test]
fn test_get_field() {
    test_parsing("r.x - x0", &vec!["r", "x0"], "(-: (.: r, x), x0)");
}

#[test]
fn parens_that_close_nothing_are_reported() {
    let tokens = vec![TokenContext::new(Token::RP, 4, 1)];
    assert_eq!(check_parens(&tokens), Err(ParsingError::UnexpectedLP(4)));
}

fn parse(expr: &str, var: &[&str]) -> Result<String, ParsingError> {
    let mut ts = TokenStream::new();
    ts.update(expr, var).unwrap();
    let mut ast = AST::new(ts);
    ast.parse_tokens()?;
    Ok(ast.rpn_repr())
}

fn tree(expr: &str, var: &[&str]) -> Branch {
    let mut ts = TokenStream::new();
    ts.update(expr, var).unwrap();
    let mut ast = AST::new(ts);
    ast.parse_tokens().unwrap();
    ast.tree.unwrap()
}

fn arity_fits(branch: &Branch) -> bool {
    match branch {
        Branch::Atom(tc) => tc.token.is_atom(),
        Branch::Expression(tc, children) => {
            let n = children.len();
            let fits = match &tc.token {
                Token::Func(_, max) => 1 <= n && n <= *max,
                Token::ArOp(ArithmeticOperator::Plus) | Token::ArOp(ArithmeticOperator::Minus) => {
                    n == 1 || n == 2
                }
                Token::ArOp(_) | Token::AssignOp(_) | Token::LB | Token::Dot | Token::Colon => {
                    n == 2
                }
                _ => false,
            };
            fits && children.iter().all(arity_fits)
        }
    }
}

#[test]
fn test_flattened_ast() {
    let expr = "x + max(0, sqrt(min(1,2,3,4)))";
    let var = &vec!["x"];
    let mut ts = TokenStream::new();
    let _ = ts.update(expr, var);
    let mut ast = AST::new(ts);
    let _ = ast.parse_tokens();

    let flat_ast = ast.flatten_ast().unwrap();
    println!("Expression: {}", expr);
    println!("Nodes:");
    for id in 0..flat_ast.len() {
        println!("  {:3}: {}", id, flat_ast.node(id).unwrap().token.to_string());
    }
    println!("Edges:");
    for id in 0..flat_ast.len() {
        println!("  {:3} -> {:3}", id, flat_ast.parent(id).unwrap());
    }
    assert_eq!(flat_ast.len(), 10);
    let printed: Vec<String> =
        (0..10).map(|id| flat_ast.node(id).unwrap().token.to_string()).collect();
    assert_eq!(printed, vec!["+", "x", "Max", "0", "Sqrt", "Min", "1", "2", "3", "4"]);
    let parents: Vec<u8> = (0..10).map(|id| flat_ast.parent(id).unwrap()).collect();
    assert_eq!(parents, vec![0, 0, 0, 2, 2, 4, 5, 5, 5, 5]);
    assert!(flat_ast.node(10).is_none());
    assert!(flat_ast.parent(10).is_none());
}

#[test]
fn a_graph_numbers_at_most_255_nodes() {
    let small = (0..127).map(|_| "1").collect::<Vec<_>>().join("+");
    let mut ts = TokenStream::new();
    ts.update(&small, &[]).unwrap();
    let mut ast = AST::new(ts);
    ast.parse_tokens().unwrap();
    assert_eq!(ast.flatten_ast().unwrap().len(), 253);

    let large = (0..129).map(|_| "1").collect::<Vec<_>>().join("+");
    let mut ts = TokenStream::new();
    ts.update(&large, &[]).unwrap();
    let mut ast = AST::new(ts);
    ast.parse_tokens().unwrap();
    assert!(ast.flatten_ast().is_none());

    assert!(AST::new(TokenStream::new()).flatten_ast().is_none());
}

#[test]
fn operators_bind_as_in_arithmetic() {
    assert_eq!(parse("1 + 2 - 3", &[]).unwrap(), "(-: (+: 1, 2), 3)");
    assert_eq!(parse("1 - 2 * 3 / 4", &[]).unwrap(), "(-: 1, (/: (*: 2, 3), 4))");
    assert_eq!(parse("2 * 3 ** 2", &[]).unwrap(), "(*: 2, (**: 3, 2))");
    assert_eq!(parse("2 ** 3 ** 2", &[]).unwrap(), "(**: (**: 2, 3), 2)");
    assert_eq!(parse("2 ^ 3", &[]).unwrap(), "(**: 2, 3)");
    assert_eq!(parse("a.b.c", &["a"]).unwrap(), "(.: (.: a, b), c)");
    assert_eq!(parse("a.b ** 2", &["a"]).unwrap(), "(**: (.: a, b), 2)");
    assert_eq!(parse("2 * a.b", &["a"]).unwrap(), "(*: 2, (.: a, b))");
    assert_eq!(parse("2 ** a.b", &["a"]).unwrap(), "(.: (**: 2, a), b)");
    assert_eq!(parse("-a.b", &["a"]).unwrap(), "(-: (.: a, b))");
    assert_eq!(parse("a.b[0].c", &["a"]).unwrap(), "(.: ([: (.: a, b), 0), c)");
    assert_eq!(parse("a.b + 2", &["a"]).unwrap(), "(+: (.: a, b), 2)");
    assert_eq!(parse("a.b * 2", &["a"]).unwrap(), "(*: (.: a, b), 2)");
    assert_eq!(parse("a = 1 + 2", &["a"]).unwrap(), "(=: a, (+: 1, 2))");
    assert_eq!(parse("v[1 + 2] * 3", &["v"]).unwrap(), "(*: ([: v, (+: 1, 2)), 3)");
    assert_eq!(parse("v[0][1]", &["v"]).unwrap(), "([: ([: v, 0), 1)");
    assert_eq!(parse("v[1:2+3]", &["v"]).unwrap(), "([: v, (:: 1, (+: 2, 3)))");
}

#[test]
fn behind_the_dot_of_a_field_stands_a_name() {
    assert_eq!(parse("a.b", &["a"]).unwrap(), "(.: a, b)");
    assert_eq!(parse("(a + 1).b", &["a"]).unwrap(), "(.: (+: a, 1), b)");
    assert_eq!(parse("a.2", &["a"]), Err(ParsingError::UnexpectedToken(2)));
    assert_eq!(parse("a.e", &["a"]), Err(ParsingError::UnexpectedToken(2)));
    assert_eq!(parse("a.sin(1)", &["a"]), Err(ParsingError::UnexpectedToken(2)));
    assert_eq!(parse("a.(b)", &["a", "b"]), Err(ParsingError::UnexpectedToken(2)));
    assert_eq!(parse("a.-b", &["a", "b"]), Err(ParsingError::UnexpectedToken(2)));
    assert_eq!(parse("a. .b", &["a"]), Err(ParsingError::UnexpectedToken(3)));
    assert_eq!(parse("a.", &["a"]), Err(ParsingError::UnexpectedToken(2)));
    assert_eq!(parse("π.", &[]), Err(ParsingError::UnexpectedToken(3)));
}

#[test]
fn the_end_of_the_source_is_its_byte_length() {
    assert_eq!(parse("π +", &[]), Err(ParsingError::UnexpectedToken(4)));
    assert_eq!(parse("π π", &[]), Err(ParsingError::UnexpectedToken(3)));
    assert_eq!(parse("\u{2003}", &[]), Err(ParsingError::UnexpectedToken(3)));
    assert_eq!(parse("sin(ϕ", &["ϕ"]), Err(ParsingError::MissingRP(1)));
    assert_eq!(parse("max(ϕ ϕ)", &["ϕ"]), Err(ParsingError::UnexpectedToken(7)));
}

#[test]
fn signs_stand_before_their_operand() {
    assert_eq!(parse("-x", &["x"]).unwrap(), "(-: x)");
    assert_eq!(parse("+x", &["x"]).unwrap(), "(+: x)");
    assert_eq!(parse("-x * y", &["x", "y"]).unwrap(), "(-: (*: x, y))");
    assert_eq!(parse("-x + y", &["x", "y"]).unwrap(), "(-: (+: x, y))");
    assert_eq!(parse("-x = y", &["x", "y"]).unwrap(), "(=: (-: x), y)");
    assert_eq!(parse("v[-x : y]", &["v", "x", "y"]).unwrap(), "([: v, (:: (-: x), y))");
    assert_eq!(parse("- - x", &["x"]).unwrap(), "(-: (-: x))");
    assert_eq!(parse("2 - -3", &[]).unwrap(), "(-: 2, -3)");
    assert_eq!(parse("-(1 + 2)", &[]).unwrap(), "(-: (+: 1, 2))");
}

#[test]
fn every_parsing_error_has_its_input() {
    assert_eq!(parse("", &[]), Err(ParsingError::UnexpectedToken(0)));
    assert_eq!(parse("   ", &[]), Err(ParsingError::UnexpectedToken(3)));
    assert_eq!(parse("1 2", &[]), Err(ParsingError::UnexpectedToken(2)));
    assert_eq!(parse("1 +", &[]), Err(ParsingError::UnexpectedToken(3)));
    assert_eq!(parse("* 2", &[]), Err(ParsingError::UnexpectedToken(0)));
    assert_eq!(parse("a-1", &["a"]), Err(ParsingError::UnexpectedToken(1)));
    assert_eq!(parse("1 + 2)", &[]), Err(ParsingError::UnexpectedLP(5)));
    assert_eq!(parse(")(", &[]), Err(ParsingError::UnexpectedLP(0)));
    assert_eq!(parse("((1 + 2)", &[]), Err(ParsingError::MissingRP(1)));
    assert_eq!(parse("(((1", &[]), Err(ParsingError::MissingRP(3)));
    assert_eq!(parse("max()", &[]), Err(ParsingError::MissingArgument(0)));
    assert_eq!(parse("1 + sin()", &[]), Err(ParsingError::MissingArgument(4)));
    assert_eq!(parse("sin(1, 2)", &[]), Err(ParsingError::TooManyArguments(0)));
    assert_eq!(parse("2 * sqrt(1, 2, 3)", &[]), Err(ParsingError::TooManyArguments(4)));
    assert_eq!(parse("sin 1", &[]), Err(ParsingError::UnexpectedToken(4)));
    assert_eq!(parse("max(1 2)", &[]), Err(ParsingError::UnexpectedToken(6)));
    assert_eq!(parse("v[1", &["v"]), Err(ParsingError::UnexpectedToken(3)));
    assert_eq!(parse("v[1,", &["v"]), Err(ParsingError::UnexpectedToken(3)));
    assert_eq!(
        parse("x += 1", &["x"]),
        Err(ParsingError::InvalidOperation(2, "Only simple assignment is allowed.".into()))
    );
    assert_eq!(
        parse("x < 1", &["x"]),
        Err(ParsingError::InvalidOperation(2, "Comparison operators are not allowed.".into()))
    );
    assert_eq!(
        parse("1 == 1 != 2", &[]),
        Err(ParsingError::InvalidOperation(2, "Comparison operators are not allowed.".into()))
    );
}

#[test]
fn a_function_takes_up_to_its_limit_of_arguments() {
    let ones = |n: usize| (0..n).map(|_| "1").collect::<Vec<_>>().join(",");
    assert!(parse(&format!("max({})", ones(64)), &[]).is_ok());
    assert_eq!(
        parse(&format!("max({})", ones(65)), &[]),
        Err(ParsingError::TooManyArguments(0))
    );
    assert!(parse("abs(1)", &[]).is_ok());
    assert_eq!(parse("abs(1,1)", &[]), Err(ParsingError::TooManyArguments(0)));
}

#[test]
fn logical_operators_are_refused_before_parsing() {
    let tokens = vec![
        TokenContext::new(number("1"), 0, 1),
        TokenContext::new(Token::LogicOp(dymex::LogicalOperator::Or), 2, 2),
        TokenContext::new(number("2"), 5, 1),
    ];
    assert_eq!(
        dymex::check_tokens(&tokens),
        Err(ParsingError::InvalidOperation(2, "Logical operators are not allowed.".into()))
    );
    let tokens = vec![
        TokenContext::new(Token::Var("a".into()), 0, 1),
        TokenContext::new(Token::AssignOp(dymex::AssignmentOperator::Assign), 2, 1),
        TokenContext::new(number("2"), 4, 1),
    ];
    assert_eq!(dymex::check_tokens(&tokens), Ok(()));
}

#[test]
fn parentheses_are_counted() {
    let open = |n: usize| -> Vec<TokenContext> {
        (0..n).map(|i| TokenContext::new(Token::LP, i, 1)).collect()
    };
    assert_eq!(check_parens(&open(0)), Ok(()));
    assert_eq!(check_parens(&open(1)), Err(ParsingError::MissingRP(1)));
    assert_eq!(check_parens(&open(17)), Err(ParsingError::MissingRP(17)));
    let mut tokens = open(2);
    tokens.push(TokenContext::new(Token::RP, 2, 1));
    tokens.push(TokenContext::new(Token::RP, 3, 1));
    assert_eq!(check_parens(&tokens), Ok(()));
    tokens.push(TokenContext::new(Token::RP, 9, 1));
    tokens.push(TokenContext::new(Token::LP, 10, 1));
    assert_eq!(check_parens(&tokens), Err(ParsingError::UnexpectedLP(9)));
}

#[test]
fn tokens_behind_the_expression_stay_unread() {
    assert_eq!(parse("1, 2", &[]).unwrap(), "1");
    assert_eq!(parse("(1) (2)", &[]).unwrap(), "1");
    let mut ts = TokenStream::new();
    ts.update("1 , 2", &[]).unwrap();
    let parsed = dymex::pratt_parser(&mut ts, 0).unwrap();
    assert_eq!(parsed.as_rpn_str(), "1");
    assert_eq!(ts.next().token, Token::Comma);
}

#[test]
fn the_parser_stops_at_a_weaker_operator() {
    let mut ts = TokenStream::new();
    ts.update("2 * 3 + 4", &[]).unwrap();
    let parsed = dymex::pratt_parser(&mut ts, 12).unwrap();
    assert_eq!(parsed.as_rpn_str(), "(*: 2, 3)");
    assert_eq!(ts.peek().token, Token::ArOp(ArithmeticOperator::Plus));
}

#[test]
fn every_operator_of_a_parsed_tree_has_a_fitting_number_of_operands() {
    let sources = [
        "(1.0 + (a - b)*c) / 2",
        "min(a, max(5.0, max(abs(v))**2))",
        "-a + +b - c.x[1:2] * v[-1]",
        "a = sum(1, 2, 3) ** -b",
        "7",
    ];
    for source in sources {
        assert!(arity_fits(&tree(source, &["a", "b", "c", "v"])), "{}", source);
    }
}

#[test]
fn binding_powers_are_those_of_the_table() {
    assert_eq!(dymex::prefix_precedence(&Token::ArOp(ArithmeticOperator::Minus)), Some((0, 9)));
    assert_eq!(dymex::prefix_precedence(&Token::ArOp(ArithmeticOperator::Mul)), None);
    assert_eq!(dymex::postfix_precedence(&Token::LB), Some((11, 0)));
    assert_eq!(dymex::postfix_precedence(&Token::RB), None);
    assert_eq!(dymex::infix_precedence(&Token::ArOp(ArithmeticOperator::Plus)), Some((10, 11)));
    assert_eq!(dymex::infix_precedence(&Token::ArOp(ArithmeticOperator::Div)), Some((12, 13)));
    assert_eq!(dymex::infix_precedence(&Token::ArOp(ArithmeticOperator::Pow)), Some((14, 15)));
    assert_eq!(dymex::infix_precedence(&Token::ArOp(ArithmeticOperator::Rem)), None);
    assert_eq!(dymex::infix_precedence(&Token::Dot), Some((14, 13)));
    assert_eq!(dymex::infix_precedence(&Token::Colon), Some((6, 5)));
    assert_eq!(
        dymex::infix_precedence(&Token::AssignOp(dymex::AssignmentOperator::Assign)),
        Some((2, 1))
    );
    assert_eq!(
        dymex::infix_precedence(&Token::RelOp(dymex::RelationalOperator::Eq)),
        Some((2, 1))
    );
    assert_eq!(
        dymex::infix_precedence(&Token::LogicOp(dymex::LogicalOperator::And)),
        Some((4, 3))
    );
    assert_eq!(dymex::infix_precedence(&Token::Comma), None);
}

#[test]
fn new_tokens_make_the_tree_forgotten() {
    let mut ts = TokenStream::new();
    ts.update("1 + 2", &[]).unwrap();
    let mut ast = AST::new(ts);
    ast.parse_tokens().unwrap();
    assert_eq!(ast.rpn_repr(), "(+: 1, 2)");

    let mut same = TokenStream::new();
    same.update("1+2", &[]).unwrap();
    ast.update_tokens(same);
    assert_eq!(ast.rpn_repr(), "(+: 1, 2)");

    let mut other = TokenStream::new();
    other.update("1 * 2", &[]).unwrap();
    ast.update_tokens(other);
    assert!(ast.tree.is_none());
    assert_eq!(ast.rpn_repr(), "");
    ast.parse_tokens().unwrap();
    assert_eq!(ast.rpn_repr(), "(*: 1, 2)");
}

#[test]
fn a_failed_parse_keeps_the_tree() {
    let mut ts = TokenStream::new();
    ts.update("1 + ", &[]).unwrap();
    let mut ast = AST::new(ts);
    assert_eq!(ast.parse_tokens(), Err(ParsingError::UnexpectedToken(4)));
    assert!(ast.tree.is_none());
}

#[test]
fn parentheses_are_painted_by_their_depth() {
    let painted = dymex::parser::paint_parens("(a(b)((c)))x)");
    let colors: Vec<Option<dymex::parser::ParenColor>> = painted.iter().map(|p| p.1).collect();
    let text: String = painted.iter().map(|p| p.0).collect();
    assert_eq!(text, "(a(b)((c)))x)");
    assert_eq!(
        colors,
        vec![
            Some(dymex::parser::ParenColor::Red),
            None,
            Some(dymex::parser::ParenColor::Green),
            None,
            Some(dymex::parser::ParenColor::Green),
            Some(dymex::parser::ParenColor::Green),
            Some(dymex::parser::ParenColor::Blue),
            None,
            Some(dymex::parser::ParenColor::Blue),
            Some(dymex::parser::ParenColor::Green),
            Some(dymex::parser::ParenColor::Red),
            None,
            Some(dymex::parser::ParenColor::Black),
        ]
    );
    assert_eq!(dymex::parser::get_paren_color(0), dymex::parser::ParenColor::Red);
    assert_eq!(dymex::parser::get_paren_color(5), dymex::parser::ParenColor::Cyan);
    assert_eq!(dymex::parser::get_paren_color(6), dymex::parser::ParenColor::Black);
    assert_eq!(dymex::parser::get_paren_color(7), dymex::parser::ParenColor::Red);
    assert_eq!(dymex::parser::get_paren_color(10), dymex::parser::ParenColor::Magenta);
    assert_eq!(dymex::parser::get_paren_color(-1), dymex::parser::ParenColor::Black);
    assert_eq!(dymex::parser::get_paren_color(-7), dymex::parser::ParenColor::Red);
    assert_eq!(dymex::parser::get_paren_color(i32::MIN), dymex::parser::ParenColor::Black);
    let tree = tree("(1 + x) * 3", &["x"]);
    assert_eq!(tree.rpn_colors().len(), "(*: (+: 1, x), 3)".chars().count());
}

#[test]
fn parsing_messages_point_at_the_token() {
    let e = parse("1 2", &[]).unwrap_err();
    assert_eq!(e.user_message().full_message("1 2"), "Unexpected token:\n1 2\n  ^\n");
    let e = parse("x += 1", &["x"]).unwrap_err();
    assert_eq!(
        e.user_message().full_message("x += 1"),
        "Invalid operation: Only simple assignment is allowed.\nx += 1\n  ^\n"
    );
    let e = parse("(1", &[]).unwrap_err();
    assert_eq!(e.user_message().to_string(), "Missing closing parenthesis.\n");
    let e = dymex::DymexError::ParsingError(ParsingError::MissingArgument(3));
    assert_eq!(e.user_message().full_message("1 +max()"), "Missing argument:\n1 +max()\n   ^\n");
    let e = dymex::DymexError::LexicalError(dymex::TokenizerError::SyntaxError(0));
    assert_eq!(e.user_message().to_string(), "Syntax error:\n");
}

#[test]
fn create_graph1() {
    let input_var = &["x", "y"];
    let expr = "(2.0*pi * exp(-x*x)) / max(1.0 + sqrt(y), 0)";
    let graph = dymex::MermaidGraph::from_expr(expr.into(), input_var).unwrap();
    let text = graph.render();
    assert!(text.starts_with("---\nconfig:\n  layout: elk\n"));
    assert!(text.contains("(2.0⋅pi ⋅ exp(-x⋅x)) / max(1.0 + sqrt(y), 0)"));
}

#[test]
fn a_chart_has_a_line_for_every_node_and_edge() {
    let graph = dymex::MermaidGraph::from_expr("sin(x) + max(2, pi)".into(), &["x"]).unwrap();
    let expected = [
        "---",
        "config:",
        "  layout: elk",
        "  look: handDrawn",
        "  theme: light",
        "---",
        "flowchart TB",
        "  expr@{ shape: doc, label: \"sin(x) + max(2, pi)\" }",
        "  var0@{ shape: cyl, label: \"x\" }",
        "  S0{\" \\+ \"}",
        "  S1[\\ Sin /]",
        "  S2( x )",
        "  S3> Max ]",
        "  S4[ 2 ]",
        "  S5[[ π ]]",
        "  S1-->S2",
        "  S0-->S1",
        "  S3-->S4",
        "  S3-->S5",
        "  S0-->S3",
        "",
    ];
    assert_eq!(graph.render(), expected.join("\n"));
    let broken = dymex::MermaidGraph::from_expr("sin(".into(), &[]);
    assert!(matches!(broken, Err(dymex::DymexError::ParsingError(_))));
    let unknown = dymex::MermaidGraph::from_expr("z".into(), &[]);
    assert!(matches!(unknown, Err(dymex::DymexError::LexicalError(_))));
}

#[test]
fn numbers_are_written_in_decimal_digits() {
    for n in [0usize, 1, 9, 10, 11, 99, 100, 12345, 1000000007] {
        assert_eq!(dymex::mermaid::decimal_string(n), n.to_string());
    }
    assert_eq!(dymex::mermaid::decimal_string(usize::MAX), usize::MAX.to_string());
}

#[test]
fn parentheses_get_the_escape_sequences_of_their_colours() {
    let small = tree("(1 + x) * 3", &["x"]);
    colored::control::set_override(true);
    assert_eq!(
        small.rpn_colored().concat(),
        "\x1b[31m(\x1b[0m*: \x1b[32m(\x1b[0m+: 1, x\x1b[32m)\x1b[0m, 3\x1b[31m)\x1b[0m"
    );
    let deep = tree("((((((((1))))))))  + sin(cos(tan(exp(log(sqrt(abs(1)))))))", &[]);
    let pieces = deep.rpn_colored();
    let colored: Vec<&String> = pieces.iter().filter(|p| p.len() > 1).collect();
    assert_eq!(colored.len(), 16);
    assert_eq!(colored[0], "\x1b[31m(\x1b[0m");
    assert_eq!(colored[1], "\x1b[32m(\x1b[0m");
    assert_eq!(colored[2], "\x1b[34m(\x1b[0m");
    assert_eq!(colored[3], "\x1b[35m(\x1b[0m");
    assert_eq!(colored[4], "\x1b[33m(\x1b[0m");
    assert_eq!(colored[5], "\x1b[36m(\x1b[0m");
    assert_eq!(colored[6], "\x1b[30m(\x1b[0m");
    assert_eq!(colored[7], "\x1b[31m(\x1b[0m");
    assert_eq!(colored[8], "\x1b[31m)\x1b[0m");
    assert_eq!(colored[15], "\x1b[31m)\x1b[0m");
    colored::control::set_override(false);
    assert_eq!(small.rpn_colored().concat(), "(*: (+: 1, x), 3)");
}
