use dymex::{
    Answer, ArithmeticOperator, Evaluand, EvaluationError, Evaluator, Function, Mapping, Plan,
    Reduction, Request, Step, Token, TokenContext, Value,
};
use std::collections::HashMap;

const ZERO_THR: f64 = 1E2 * f64::EPSILON;
const REL_ERR: f64 = 1E2 * f64::EPSILON;

fn approx_eq(x1: f64, x2: f64) -> bool {
    if x1.abs() < ZERO_THR && x2.abs() < ZERO_THR {
        return true;
    }
    if 2.0 * (x1 - x2).abs() / (x1 + x2).abs() > REL_ERR {
        return false;
    }
    true
}

fn num(x: f64) -> Value {
    Value::Number(x.to_bits())
}

fn arr(xs: &[f64]) -> Value {
    Value::Array(xs.iter().map(|x| x.to_bits()).collect())
}

fn as_number(v: &Value) -> f64 {
    match v {
        Value::Number(b) => f64::from_bits(*b),
        other => panic!("not a number: {:?}", other),
    }
}

fn as_vec(v: &Value) -> Vec<f64> {
    match v {
        Value::Array(b) => b.iter().map(|x| f64::from_bits(*x)).collect(),
        other => panic!("not an array: {:?}", other),
    }
}

fn binary(op: ArithmeticOperator, a: f64, b: f64) -> f64 {
    match op {
        ArithmeticOperator::Plus => a + b,
        ArithmeticOperator::Minus => a - b,
        ArithmeticOperator::Mul => a * b,
        ArithmeticOperator::Div => a / b,
        ArithmeticOperator::Pow => a.powf(b),
        other => panic!("not a binary operation: {:?}", other),
    }
}

fn map(func: Mapping, x: f64) -> f64 {
    match func {
        Mapping::Negate => -x,
        Mapping::Abs => x.abs(),
        Mapping::Sin => x.sin(),
        Mapping::Cos => x.cos(),
        Mapping::Tan => x.tan(),
        Mapping::Cot => 1.0 / x.tan(),
        Mapping::Exp => x.exp(),
        Mapping::Log => x.ln(),
        Mapping::Log2 => x.log2(),
        Mapping::Log10 => x.log10(),
        Mapping::Sqrt => x.sqrt(),
        Mapping::Cbrt => x.cbrt(),
        Mapping::Pow2 => x * x,
        Mapping::Pow3 => x * x * x,
        Mapping::Pow4 => x * x * x * x,
    }
}

fn reduce(kind: Reduction, v: &[f64]) -> f64 {
    let n = v.len() as f64;
    let max = v.iter().fold(f64::NEG_INFINITY, |a, &b| a.max(b));
    let min = v.iter().fold(f64::INFINITY, |a, &b| a.min(b));
    let sum = v.iter().sum::<f64>();
    match kind {
        Reduction::Min => min,
        Reduction::Max => max,
        Reduction::Range => max - min,
        Reduction::Sum => sum,
        Reduction::Avg => sum / n,
        Reduction::Std => {
            let avg = sum / n;
            (v.iter().map(|e| (e - avg) * (e - avg)).sum::<f64>() / n).sqrt()
        }
        Reduction::L2Norm => v.iter().map(|e| e * e).sum::<f64>().sqrt(),
        Reduction::L1Norm => v.iter().map(|e| e.abs()).sum::<f64>(),
    }
}

fn floats(v: &[u64]) -> Vec<f64> {
    v.iter().map(|x| f64::from_bits(*x)).collect()
}

fn unit(request: &Request) -> Answer {
    match request {
        Request::Literal(text) => {
            Answer::Numbers(vec![text.as_str().parse::<f64>().unwrap().to_bits()])
        }
        Request::Binary { op, lhs, rhs } => Answer::Numbers(
            floats(lhs)
                .iter()
                .zip(floats(rhs).iter())
                .map(|(a, b)| binary(*op, *a, *b).to_bits())
                .collect(),
        ),
        Request::Apply { func, args } => {
            Answer::Numbers(floats(args).iter().map(|x| map(*func, *x).to_bits()).collect())
        }
        Request::Reduce { kind, data } => {
            Answer::Numbers(vec![reduce(*kind, &floats(data)).to_bits()])
        }
        Request::Integer(x) => {
            let v = f64::from_bits(*x);
            if v.fract() == 0.0 && v.abs() < 9.0e18 {
                Answer::Integer(v as i64)
            } else {
                Answer::NoInteger
            }
        }
    }
}

fn run(evaluator: &mut Evaluator, inputs: &Vec<(String, Value)>) -> Result<Value, EvaluationError> {
    evaluator.evaluate_with(inputs, unit)
}

fn run_by_steps(
    evaluator: &mut Evaluator,
    inputs: &Vec<(String, Value)>,
) -> Result<(Value, usize), EvaluationError> {
    let mut requests = 0;
    let mut step = evaluator.evaluate(inputs)?;
    loop {
        match step {
            Step::Done(v) => return Ok((v, requests)),
            Step::Ask(request) => {
                requests += 1;
                step = evaluator.resume(unit(&request))?;
            }
        }
    }
}

fn names(inputs: &Vec<(String, Value)>) -> Vec<&str> {
    inputs.iter().map(|(n, _)| n.as_str()).collect()
}

fn eval_one(eval: &Evaluand, values: &HashMap<u16, Value>) -> Value {
    let aliases: Vec<(String, u16)> = Vec::new();
    match eval.eval(values, &aliases).unwrap() {
        Plan::Ready(v) => v,
        Plan::Ask(request) => eval.finish(values, &aliases, unit(&request)).unwrap(),
    }
}

#[test]
fn eval_test_addition() {
    let token = Token::ArOp(ArithmeticOperator::Plus);
    let tc = TokenContext { token: token, at: 0, len: 0 };
    let eval = Evaluand { op: tc, args: vec![0, 1] };

    let mut variables: HashMap<u16, Value> = HashMap::new();
    variables.insert(0, num(1.0));
    variables.insert(1, num(2.0));

    let res = eval_one(&eval, &variables);
    assert_eq!(as_number(&res), 3.0);
}

#[test]
fn eval_test_variadic_fnc1() {
    let token = Token::Func(Function::Max, 10);
    let tc = TokenContext { token: token, at: 0, len: 0 };
    let eval = Evaluand { op: tc, args: vec![0, 1, 3, 5, 6] };
    let mut variables: HashMap<u16, Value> = HashMap::new();
    let test_val = [3.4, 0.0, 99.0, 16.0, 3.0, 2.0, -99.0, 1.0, -1.0];
    for (i, x) in test_val.iter().enumerate() {
        variables.insert(i as u16, num(*x));
    }
    let res = eval_one(&eval, &variables);
    assert_eq!(as_number(&res), 16.0);
}

#[test]
fn eval_test_variadic_fnc2() {
    let token = Token::Func(Function::Max, 10);
    let tc = TokenContext { token: token, at: 0, len: 0 };
    let eval = Evaluand { op: tc, args: vec![0] };
    let mut variables: HashMap<u16, Value> = HashMap::new();
    let vector = vec![-16.0, -4.0, 0.0, 4.0, 8.0];

    variables.insert(0, arr(&vector));

    let res = eval_one(&eval, &variables);
    assert_eq!(as_number(&res), 8.0);
}

#[test]
fn simple_expression_binop() {
    let expression = "(1.0 + (a - b)*c) / 2";

    let mut variables: Vec<(String, Value)> = Vec::new();
    variables.push(("a".to_owned(), num(2.0)));
    variables.push(("b".to_owned(), num(1.0)));
    variables.push(("c".to_owned(), num(3.0)));

    let mut evalutor = Evaluator::new(&expression, &names(&variables)).unwrap();

    let result = run(&mut evalutor, &variables).unwrap();
    assert_eq!(2.0, as_number(&result));
}

#[test]
fn simple_expression_trig() {
    let expression = "cos(pi * (sin(x)^2 + cos(x)^2) / 2)";
    let mut variables: Vec<(String, Value)> = Vec::new();
    variables.push(("x".to_owned(), num(0.12345)));

    let mut evalutor = Evaluator::new(&expression, &names(&variables)).unwrap();

    let result = run(&mut evalutor, &variables).unwrap();
    assert!(as_number(&result).abs() < 1E-10);
}

#[test]
fn variadic_expression_trig() {
    let expression = "min(a, max(5.0, max(abs(v))**2))";
    let mut variables: Vec<(String, Value)> = Vec::new();
    variables.push(("a".to_owned(), num(10.0)));
    variables.push(("v".to_owned(), arr(&[-3.0, -1.0, 0.0, 2.0])));

    let mut evalutor = Evaluator::new(&expression, &names(&variables)).unwrap();

    let result = run(&mut evalutor, &variables).unwrap();
    assert_eq!(as_number(&result), 9.0);
}

#[test]
fn nested_expression1() {
    let expression = "2**(((x**y)**z)**0.0)";
    let mut variables: Vec<(String, Value)> = Vec::new();
    variables.push(("x".to_owned(), num(3.0)));
    variables.push(("y".to_owned(), num(2.0)));
    variables.push(("z".to_owned(), num(2.0)));

    let mut evalutor = Evaluator::new(&expression, &names(&variables)).unwrap();

    let result = run(&mut evalutor, &variables).unwrap();
    assert_eq!(as_number(&result), 2.0);
}

#[test]
fn nested_expression2() {
    let expression = "cos(pi/2 + sin(1 + cos(sin(pi/2)*pi)))";
    let variables: Vec<(String, Value)> = Vec::new();

    let mut evalutor = Evaluator::new(&expression, &names(&variables)).unwrap();

    let result = run(&mut evalutor, &variables).unwrap();
    assert!(approx_eq(as_number(&result), 0.0));
}

#[test]
fn test_ax_plus_b() {
    let expression = "a*x + b";

    let mut variables: Vec<(String, Value)> = Vec::new();
    variables.push(("a".to_owned(), num(2.0)));
    variables.push(("b".to_owned(), num(1.0)));
    variables.push(("x".to_owned(), arr(&[1.0, 2.0, 3.0])));

    let target = [3.0, 5.0, 7.0];

    let mut evalutor = Evaluator::new(&expression, &names(&variables)).unwrap();

    let result = run(&mut evalutor, &variables).unwrap();
    let res = as_vec(&result);
    assert_eq!(res.len(), target.len());
    for (x1, x2) in res.iter().zip(target.iter()) {
        assert!(approx_eq(*x1, *x2));
    }
}

#[test]
fn test_stats() {
    let expression = "std(v) / avg(v)";

    let mut variables: Vec<(String, Value)> = Vec::new();
    variables.push((
        "v".to_owned(),
        arr(&[
            0.16126227, 0.55013359, 0.89688053, 0.58357566, 0.35384424, 0.98168083, 0.67449156,
            0.62165282, 0.21484945, 0.59141298,
        ]),
    ));

    let mut evalutor = Evaluator::new(&expression, &names(&variables)).unwrap();

    let result = run(&mut evalutor, &variables).unwrap();

    assert!(approx_eq(as_number(&result), 0.4459756077414119))
}

fn compiled(expression: &str, inputs: &Vec<(String, Value)>) -> Evaluator {
    Evaluator::new(expression, &names(inputs)).unwrap()
}

fn value_of(expression: &str, inputs: &[(&str, Value)]) -> Result<Value, EvaluationError> {
    let inputs: Vec<(String, Value)> =
        inputs.iter().map(|(n, v)| (n.to_string(), v.clone())).collect();
    let mut evaluator = compiled(expression, &inputs);
    run(&mut evaluator, &inputs)
}

fn number_of(expression: &str, inputs: &[(&str, Value)]) -> f64 {
    as_number(&value_of(expression, inputs).unwrap())
}

fn invalid_binary(operation: &str, lhs: &str, rhs: &str) -> EvaluationError {
    EvaluationError::InvalidBinaryOperation {
        operation: operation.into(),
        lhs: lhs.into(),
        rhs: rhs.into(),
    }
}

fn invalid_unary(operation: &str, operand: &str) -> EvaluationError {
    EvaluationError::InvalidUnaryOperation { operation: operation.into(), operand: operand.into() }
}

fn invalid_arguments(function: &str, details: &str) -> EvaluationError {
    EvaluationError::InvalidArguments { function: function.into(), details: details.into() }
}

#[test]
fn an_expression_of_one_leaf_has_its_value() {
    assert_eq!(number_of("5", &[]), 5.0);
    assert_eq!(number_of("1_000.5e-1", &[]), 100.05);
    assert_eq!(number_of("pi", &[]), std::f64::consts::PI);
    assert_eq!(number_of("x", &[("x", num(7.5))]), 7.5);
    assert_eq!(as_vec(&value_of("v", &[("v", arr(&[1.0, 2.0]))]).unwrap()), vec![1.0, 2.0]);
}

#[test]
fn arithmetic_follows_the_tree() {
    assert_eq!(number_of("1 + 2 * 3", &[]), 7.0);
    assert_eq!(number_of("(1 + 2) * 3", &[]), 9.0);
    assert_eq!(number_of("2 ** 3 ** 2", &[]), 64.0);
    assert_eq!(number_of("2 ^ 10", &[]), 1024.0);
    assert_eq!(number_of("7 / 2 - 1", &[]), 2.5);
    assert_eq!(number_of("-x", &[("x", num(3.0))]), -3.0);
    assert_eq!(number_of("+x", &[("x", num(3.0))]), 3.0);
    assert_eq!(number_of("2 - -3", &[]), 5.0);
    assert_eq!(number_of("-(1 + 2) * 2", &[]), -6.0);
    assert_eq!(number_of("e", &[]), std::f64::consts::E);
}

#[test]
fn every_function_is_applied() {
    let x = [("x", num(0.5))];
    assert_eq!(number_of("sin(x)", &x), 0.5f64.sin());
    assert_eq!(number_of("cos(x)", &x), 0.5f64.cos());
    assert_eq!(number_of("tan(x)", &x), 0.5f64.tan());
    assert_eq!(number_of("cotan(x)", &x), 1.0 / 0.5f64.tan());
    assert_eq!(number_of("exp(x)", &x), 0.5f64.exp());
    assert_eq!(number_of("log(x)", &x), 0.5f64.ln());
    assert_eq!(number_of("log2(x)", &x), -1.0);
    assert_eq!(number_of("log10(100)", &[]), 2.0);
    assert_eq!(number_of("sqrt(16)", &[]), 4.0);
    assert_eq!(number_of("abs(-x)", &x), 0.5);
    assert_eq!(number_of("min(3, 1, 2)", &[]), 1.0);
    assert_eq!(number_of("max(3, 1, 2)", &[]), 3.0);
    assert_eq!(number_of("sum(3, 1, 2)", &[]), 6.0);
    assert_eq!(number_of("avg(3, 1, 2)", &[]), 2.0);
    assert_eq!(number_of("mean(3, 1, 2)", &[]), 2.0);
    assert_eq!(number_of("std(2, 4, 4, 4, 5, 5, 7, 9)", &[]), 2.0);
    let v = [("v", arr(&[2.0, 4.0, 4.0, 4.0, 5.0, 5.0, 7.0, 9.0]))];
    assert_eq!(number_of("min(v)", &v), 2.0);
    assert_eq!(number_of("max(v)", &v), 9.0);
    assert_eq!(number_of("sum(v)", &v), 40.0);
    assert_eq!(number_of("avg(v)", &v), 5.0);
    assert_eq!(number_of("std(v)", &v), 2.0);
}

#[test]
fn arrays_are_combined_element_by_element() {
    let inputs = [("v", arr(&[1.0, 2.0, 4.0])), ("w", arr(&[8.0, 4.0, 2.0])), ("s", num(2.0))];
    let vec_of = |e: &str| as_vec(&value_of(e, &inputs).unwrap());
    assert_eq!(vec_of("v + w"), vec![9.0, 6.0, 6.0]);
    assert_eq!(vec_of("v - w"), vec![-7.0, -2.0, 2.0]);
    assert_eq!(vec_of("v * w"), vec![8.0, 8.0, 8.0]);
    assert_eq!(vec_of("w / v"), vec![8.0, 2.0, 0.5]);
    assert_eq!(vec_of("v ** s"), vec![1.0, 4.0, 16.0]);
    assert_eq!(vec_of("v + s"), vec![3.0, 4.0, 6.0]);
    assert_eq!(vec_of("s + v"), vec![3.0, 4.0, 6.0]);
    assert_eq!(vec_of("v - s"), vec![-1.0, 0.0, 2.0]);
    assert_eq!(vec_of("s - v"), vec![1.0, 0.0, -2.0]);
    assert_eq!(vec_of("v / s"), vec![0.5, 1.0, 2.0]);
    assert_eq!(vec_of("s / v"), vec![2.0, 1.0, 0.5]);
    assert_eq!(vec_of("s ** v"), vec![2.0, 4.0, 16.0]);
    assert_eq!(vec_of("s * v"), vec![2.0, 4.0, 8.0]);
    assert_eq!(vec_of("-v"), vec![-1.0, -2.0, -4.0]);
    assert_eq!(vec_of("+v"), vec![1.0, 2.0, 4.0]);
    assert_eq!(vec_of("sqrt(v * v)"), vec![1.0, 2.0, 4.0]);
    assert_eq!(vec_of("log2(w)"), vec![3.0, 2.0, 1.0]);
}

#[test]
fn an_array_of_no_elements_stays_one() {
    let inputs = [("v", arr(&[])), ("s", num(2.0))];
    assert_eq!(as_vec(&value_of("v * s + v", &inputs).unwrap()), Vec::<f64>::new());
    assert_eq!(as_vec(&value_of("sin(v)", &inputs).unwrap()), Vec::<f64>::new());
}

#[test]
fn arrays_of_different_shapes_are_not_combined() {
    let inputs = [("v", arr(&[1.0, 2.0, 4.0])), ("w", arr(&[8.0, 4.0]))];
    for (expression, operation) in
        [("v + w", "+"), ("v - w", "-"), ("v * w", "*"), ("v / w", "/"), ("v ** w", "**")]
    {
        assert_eq!(
            value_of(expression, &inputs),
            Err(invalid_binary(operation, "Array", "Array")),
            "{}",
            expression
        );
    }
    assert_eq!(
        Value::Array(vec![1, 2, 3]).add(&Value::Array(vec![1, 2])),
        Err(invalid_binary("+", "Array", "Array"))
    );
    assert!(Value::Array(vec![1, 2, 3]).add(&Value::Array(vec![4, 5, 6])).is_ok());
    assert!(!Value::Array(vec![1]).shape_matches(&Value::Array(vec![])));
    assert!(Value::Array(vec![1]).shape_matches(&Value::Number(1)));
}

#[test]
fn a_value_of_the_host_takes_no_arithmetic() {
    let inputs = [("u", Value::Unique(7)), ("s", num(2.0)), ("v", arr(&[1.0]))];
    assert_eq!(value_of("u + s", &inputs), Err(invalid_binary("+", "Unique", "Number")));
    assert_eq!(value_of("s * u", &inputs), Err(invalid_binary("*", "Number", "Unique")));
    assert_eq!(value_of("v / u", &inputs), Err(invalid_binary("/", "Array", "Unique")));
    assert_eq!(value_of("u ** u", &inputs), Err(invalid_binary("**", "Unique", "Unique")));
    assert_eq!(value_of("-u", &inputs), Err(invalid_unary("-", "Unique")));
    assert_eq!(value_of("+u", &inputs), Err(invalid_unary("+", "Unique")));
    assert_eq!(value_of("sin(u)", &inputs), Err(invalid_unary("sin()", "Unique")));
    assert_eq!(value_of("abs(u)", &inputs), Err(invalid_unary("abs()", "Unique")));
    assert_eq!(value_of("max(u)", &inputs), Err(invalid_unary("max()", "Unique")));
    assert_eq!(value_of("u", &inputs), Ok(Value::Unique(7)));
    assert!(!Value::Unique(1).shape_matches(&Value::Unique(1)));
    assert!(!Value::Unique(1).shape_matches(&Value::Array(vec![])));
}

#[test]
fn reductions_take_one_array_or_several_numbers() {
    let inputs = [("v", arr(&[1.0, 2.0])), ("s", num(2.0))];
    assert_eq!(
        value_of("max(v, s)", &inputs),
        Err(invalid_arguments("max", "accepts a single array or multiple scalar values"))
    );
    assert_eq!(
        value_of("sum(s, s, v)", &inputs),
        Err(invalid_arguments("sum", "accepts a single array or multiple scalar values"))
    );
    assert_eq!(value_of("max(s)", &inputs), Err(invalid_unary("max()", "Number")));
    assert_eq!(value_of("avg(5)", &inputs), Err(invalid_unary("avg()", "Number")));
    let range = Token::Func(Function::Range, 64);
    let data = vec![num(5.0), num(1.0), num(3.0)];
    match dymex::decide(&range, &data, "").unwrap() {
        Plan::Ask(request) => {
            assert_eq!(
                dymex::complete(&range, &data, "", unit(&request)),
                Ok(num(4.0))
            );
        }
        other => panic!("{:?}", other),
    }
}

#[test]
fn a_reduction_without_arguments_is_an_error() {
    let none: Vec<Value> = Vec::new();
    assert_eq!(
        dymex::dynmath_max(&none),
        Err(invalid_arguments("max", "needs at least one argument"))
    );
    assert_eq!(
        dymex::dynmath_min(&none),
        Err(invalid_arguments("min", "needs at least one argument"))
    );
    assert_eq!(
        dymex::dynmath_avg(&none),
        Err(invalid_arguments("avg", "needs at least one argument"))
    );
    assert_eq!(
        dymex::dynmath_std(&none),
        Err(invalid_arguments("std", "needs at least one argument"))
    );
    assert_eq!(
        dymex::dynmath_sum(&none),
        Err(invalid_arguments("sum", "needs at least one argument"))
    );
    assert_eq!(
        dymex::dynmath_range(&none),
        Err(invalid_arguments("range", "needs at least one argument"))
    );
    assert_eq!(
        dymex::dynmath_l2(&none),
        Err(invalid_arguments("l2_norm", "needs at least one argument"))
    );
    assert_eq!(
        dymex::dynmath_l1(&none),
        Err(invalid_arguments("l1_norm", "needs at least one argument"))
    );
    assert_eq!(
        dymex::decide(&Token::Func(Function::Max, 64), &none, ""),
        Err(invalid_arguments("max", "needs at least one argument"))
    );
    let call = Evaluand { op: TokenContext::dummy(Token::Func(Function::Max, 64)), args: vec![] };
    assert_eq!(
        call.eval(&HashMap::new(), &Vec::new()),
        Err(invalid_arguments("max", "needs at least one argument"))
    );
}

#[test]
fn norms_are_reductions_too() {
    let data = vec![num(3.0), num(-4.0)];
    match dymex::dynmath_l2(&data).unwrap() {
        request @ Request::Reduce { kind: Reduction::L2Norm, .. } => {
            assert_eq!(unit(&request), Answer::Numbers(vec![5.0f64.to_bits()]));
        }
        other => panic!("{:?}", other),
    }
    match dymex::dynmath_l1(&[arr(&[3.0, -4.0])]).unwrap() {
        request @ Request::Reduce { kind: Reduction::L1Norm, .. } => {
            assert_eq!(unit(&request), Answer::Numbers(vec![7.0f64.to_bits()]));
        }
        other => panic!("{:?}", other),
    }
}

#[test]
fn an_index_picks_an_element() {
    let v = [("v", arr(&[10.0, 20.0, 30.0])), ("i", num(1.0))];
    assert_eq!(number_of("v[0]", &v), 10.0);
    assert_eq!(number_of("v[2]", &v), 30.0);
    assert_eq!(number_of("v[i]", &v), 20.0);
    assert_eq!(number_of("v[i + 1]", &v), 30.0);
    assert_eq!(number_of("v[0] + v[1] * v[2]", &v), 610.0);
}

#[test]
fn a_negative_index_counts_from_the_end() {
    let v = [("v", arr(&[10.0, 20.0, 30.0]))];
    assert_eq!(number_of("v[-1]", &v), 30.0);
    assert_eq!(number_of("v[-2]", &v), 20.0);
    assert_eq!(number_of("v[-3]", &v), 10.0);
    assert_eq!(dymex::resolve_index(-1, 3), Some(2));
    assert_eq!(dymex::resolve_index(-3, 3), Some(0));
    assert_eq!(dymex::resolve_index(-4, 3), None);
    assert_eq!(dymex::resolve_index(0, 3), Some(0));
    assert_eq!(dymex::resolve_index(2, 3), Some(2));
    assert_eq!(dymex::resolve_index(3, 3), None);
    assert_eq!(dymex::resolve_index(0, 0), None);
    assert_eq!(dymex::resolve_index(-1, 0), None);
    assert_eq!(dymex::resolve_index(i64::MIN, 3), None);
    assert_eq!(dymex::resolve_index(i64::MAX, 3), None);
}

#[test]
fn an_index_outside_the_array_is_an_error() {
    let v = [("v", arr(&[10.0, 20.0, 30.0])), ("s", num(1.0)), ("u", Value::Unique(0))];
    assert_eq!(value_of("v[3]", &v), Err(invalid_arguments("[", "index out of range")));
    assert_eq!(value_of("v[-4]", &v), Err(invalid_arguments("[", "index out of range")));
    assert_eq!(value_of("v[1.5]", &v), Err(invalid_arguments("[", "index is not an integer")));
    assert_eq!(value_of("s[0]", &v), Err(invalid_binary("[", "Number", "Number")));
    assert_eq!(value_of("v[v]", &v), Err(invalid_binary("[", "Array", "Array")));
    assert_eq!(value_of("u[0]", &v), Err(invalid_binary("[", "Unique", "Number")));
}

#[test]
fn what_the_engine_does_not_offer_is_an_error() {
    let v = [("v", arr(&[10.0, 20.0, 30.0])), ("a", num(1.0))];
    assert_eq!(value_of("v[0:1]", &v), Err(invalid_binary(":", "Number", "Number")));
    assert_eq!(value_of("a = 2", &v), Err(invalid_binary("=", "Number", "Number")));
    assert_eq!(
        value_of("v.x", &v),
        Err(EvaluationError::InvalidField { kind_name: "Array", field: "x".into() })
    );
    assert_eq!(
        value_of("a.len + 1", &v),
        Err(EvaluationError::InvalidField { kind_name: "Number", field: "len".into() })
    );
    assert_eq!(
        Value::Unique(3).get_field("size"),
        Err(EvaluationError::InvalidField { kind_name: "Unique", field: "size".into() })
    );
}

#[test]
fn inputs_that_the_expression_uses_must_have_a_value() {
    let mut evaluator = Evaluator::new("x + 1", &["x", "y"]).unwrap();
    assert_eq!(
        run(&mut evaluator, &Vec::new()),
        Err(invalid_arguments("x", "has no value"))
    );
    let more = vec![("y".to_string(), num(2.0)), ("x".to_string(), num(1.0))];
    assert_eq!(run(&mut evaluator, &more), Ok(num(2.0)));
    assert_eq!(run(&mut evaluator, &Vec::new()), Ok(num(2.0)));

    let mut second = Evaluator::new("a * (b + c)", &["a", "b", "c"]).unwrap();
    let some = vec![("a".to_string(), num(2.0)), ("b".to_string(), num(1.0))];
    assert_eq!(run(&mut second, &some), Err(invalid_arguments("c", "has no value")));

    let lone = Evaluand { op: TokenContext::dummy(Token::Func(Function::Sin, 1)), args: vec![5] };
    assert_eq!(lone.eval(&HashMap::new(), &Vec::new()), Err(EvaluationError::Unknown));
    let named = vec![("t".to_string(), 5u16)];
    assert_eq!(
        lone.eval(&HashMap::new(), &named),
        Err(invalid_arguments("t", "has no value"))
    );
    assert_eq!(
        lone.finish(&HashMap::new(), &named, Answer::Numbers(vec![0])),
        Err(invalid_arguments("t", "has no value"))
    );
}

#[test]
fn a_field_is_named_by_the_word_behind_the_dot() {
    let v = vec![arr(&[1.0])];
    assert_eq!(
        dymex::decide(&Token::Dot, &v, "x"),
        Err(EvaluationError::InvalidField { kind_name: "Array", field: "x".into() })
    );
    assert_eq!(dymex::decide(&Token::Dot, &Vec::new(), "x"), Err(EvaluationError::Unknown));
    let access = Evaluand { op: TokenContext::dummy(Token::Dot), args: vec![1, 2] };
    let mut values: HashMap<u16, Value> = HashMap::new();
    values.insert(1, num(1.0));
    let names = vec![("r".to_string(), 1u16), ("x".to_string(), 2u16)];
    assert_eq!(
        access.eval(&values, &names),
        Err(EvaluationError::InvalidField { kind_name: "Number", field: "x".into() })
    );
    assert_eq!(
        access.eval(&values, &Vec::new()),
        Err(EvaluationError::InvalidField { kind_name: "Number", field: "".into() })
    );
    assert_eq!(
        access.eval(&HashMap::new(), &names),
        Err(invalid_arguments("r", "has no value"))
    );
}

#[test]
fn operations_with_a_wrong_number_of_operands_are_errors() {
    let one = vec![num(1.0)];
    let three = vec![num(1.0), num(2.0), num(3.0)];
    assert_eq!(
        dymex::decide(&Token::ArOp(ArithmeticOperator::Plus), &three, ""),
        Err(EvaluationError::Unknown)
    );
    assert_eq!(
        dymex::decide(&Token::ArOp(ArithmeticOperator::Mul), &one, ""),
        Err(invalid_unary("*", "Number"))
    );
    assert_eq!(
        dymex::decide(&Token::Func(Function::Sin, 1), &three, ""),
        Err(invalid_arguments("sin()", "takes exactly one argument"))
    );
    assert_eq!(dymex::decide(&Token::LB, &one, ""), Err(EvaluationError::Unknown));
    assert_eq!(dymex::decide(&Token::Colon, &one, ""), Err(EvaluationError::Unknown));
    assert_eq!(dymex::decide(&Token::LP, &one, ""), Err(EvaluationError::Unknown));
    assert_eq!(
        dymex::decide(&Token::ArOp(ArithmeticOperator::Negate), &one, ""),
        Ok(Plan::Ask(Request::Apply { func: Mapping::Negate, args: vec![1.0f64.to_bits()] }))
    );
    assert_eq!(
        dymex::complete(
            &Token::ArOp(ArithmeticOperator::Plus),
            &one,
            "",
            Answer::Numbers(vec![1])
        ),
        Err(EvaluationError::Unknown)
    );
    assert_eq!(
        dymex::complete(&Token::Func(Function::Max, 64), &three, "", Answer::Numbers(vec![7])),
        Ok(Value::Number(7))
    );
    assert_eq!(
        dymex::complete(&Token::Func(Function::Max, 64), &three, "", Answer::Numbers(vec![7, 8])),
        Err(EvaluationError::Unknown)
    );
    assert_eq!(
        dymex::complete(&Token::Func(Function::Max, 64), &three, "", Answer::NoInteger),
        Err(EvaluationError::Unknown)
    );
}

#[test]
fn an_answer_that_does_not_fit_is_an_error() {
    let inputs = vec![("v".to_string(), arr(&[1.0, 2.0]))];
    let mut evaluator = Evaluator::new("v * 2", &["v"]).unwrap();
    assert!(matches!(evaluator.evaluate(&inputs), Ok(Step::Ask(Request::Literal(_)))));
    assert_eq!(evaluator.resume(Answer::Numbers(vec![])), Err(EvaluationError::Unknown));
    assert_eq!(evaluator.resume(Answer::Numbers(vec![0])), Err(EvaluationError::Unknown));

    assert!(matches!(evaluator.evaluate(&inputs), Ok(Step::Ask(Request::Literal(_)))));
    let step = evaluator.resume(Answer::Numbers(vec![2.0f64.to_bits()])).unwrap();
    assert_eq!(
        step,
        Step::Ask(Request::Binary {
            op: ArithmeticOperator::Mul,
            lhs: vec![1.0f64.to_bits(), 2.0f64.to_bits()],
            rhs: vec![2.0f64.to_bits(), 2.0f64.to_bits()],
        })
    );
    assert_eq!(evaluator.resume(Answer::Numbers(vec![1])), Err(EvaluationError::Unknown));

    assert!(matches!(evaluator.evaluate(&inputs), Ok(Step::Ask(Request::Binary { .. }))));
    assert_eq!(evaluator.resume(Answer::Integer(1)), Err(EvaluationError::Unknown));

    assert!(evaluator.evaluate(&inputs).is_ok());
    assert_eq!(
        evaluator.resume(Answer::Numbers(vec![2.0f64.to_bits(), 4.0f64.to_bits()])),
        Ok(Step::Done(arr(&[2.0, 4.0])))
    );
    assert_eq!(evaluator.resume(Answer::Numbers(vec![1])), Err(EvaluationError::Unknown));
}

#[test]
fn requests_state_the_operands_in_order() {
    let a = 1.5f64.to_bits();
    let b = 2.5f64.to_bits();
    let v = vec![10.0f64.to_bits(), 20.0f64.to_bits()];
    assert_eq!(
        Value::Number(a).sub(&Value::Number(b)),
        Ok(Request::Binary { op: ArithmeticOperator::Minus, lhs: vec![a], rhs: vec![b] })
    );
    assert_eq!(
        Value::Array(v.clone()).sub(&Value::Number(b)),
        Ok(Request::Binary { op: ArithmeticOperator::Minus, lhs: v.clone(), rhs: vec![b, b] })
    );
    assert_eq!(
        Value::Number(a).sub(&Value::Array(v.clone())),
        Ok(Request::Binary { op: ArithmeticOperator::Minus, lhs: vec![a, a], rhs: v.clone() })
    );
    assert_eq!(
        Value::Number(a).add(&Value::Array(v.clone())),
        Ok(Request::Binary { op: ArithmeticOperator::Plus, lhs: v.clone(), rhs: vec![a, a] })
    );
    assert_eq!(
        Value::Number(a).mul(&Value::Array(v.clone())),
        Value::Array(v.clone()).mul(&Value::Number(a))
    );
    assert_eq!(
        Value::Array(v.clone()).sub_inv(&Value::Number(a)),
        Value::Number(a).sub(&Value::Array(v.clone()))
    );
    assert_eq!(
        Value::Array(v.clone()).div_inv(&Value::Number(a)),
        Ok(Request::Binary { op: ArithmeticOperator::Div, lhs: vec![a, a], rhs: v.clone() })
    );
    assert_eq!(
        Value::Array(v.clone()).pow_inv(&Value::Number(a)),
        Ok(Request::Binary { op: ArithmeticOperator::Pow, lhs: vec![a, a], rhs: v.clone() })
    );
    assert_eq!(
        Value::Number(a).binary(ArithmeticOperator::Rem, &Value::Number(b)),
        Err(invalid_binary("%", "Number", "Number"))
    );
    assert_eq!(
        Value::Array(v.clone()).dyn_cbrt(),
        Ok(Request::Apply { func: Mapping::Cbrt, args: v.clone() })
    );
    assert_eq!(
        Value::Number(a).dyn_pow2(),
        Ok(Request::Apply { func: Mapping::Pow2, args: vec![a] })
    );
    assert_eq!(Value::Unique(0).dyn_pow3(), Err(invalid_unary("^3", "Unique")));
    assert_eq!(
        Value::Array(v.clone()).l2_norm(),
        Ok(Request::Reduce { kind: Reduction::L2Norm, data: v.clone() })
    );
    assert_eq!(Value::Number(a).std_dev(), Err(invalid_unary("std()", "Number")));
    assert_eq!(
        dymex::reduction(Reduction::Sum, &[Value::Number(a), Value::Number(b)]),
        Ok(Request::Reduce { kind: Reduction::Sum, data: vec![a, b] })
    );
}

#[test]
fn values_know_their_category_and_shape() {
    assert_eq!(num(1.0).category(), dymex::Category::Number);
    assert_eq!(arr(&[1.0]).category(), dymex::Category::Array);
    assert_eq!(Value::Unique(1).category(), dymex::Category::Unique);
    assert_eq!(num(1.0).shape(), [0, 0, 0]);
    assert_eq!(arr(&[1.0, 2.0]).shape(), [2, 0, 0]);
    assert_eq!(Value::Unique(1).shape(), [0, 0, 0]);
    assert_eq!(dymex::MAXDIM, 3);
    assert_eq!(num(1.0).kind_name(), "Number");
    assert_eq!(arr(&[]).kind_name(), "Array");
    assert_eq!(dymex::Category::Unique.to_str(), "Unique");
    assert_eq!(num(2.5).as_number(), 2.5f64.to_bits());
    assert_eq!(arr(&[2.5]).iterate(), &[2.5f64.to_bits()]);
    assert!(dymex::all_scalars(&[num(1.0), num(2.0)]));
    assert!(!dymex::all_scalars(&[num(1.0), arr(&[])]));
    assert!(dymex::all_scalars(&[]));
    assert_eq!(dymex::unbox_numbers(&[num(1.0), num(2.0)]), vec![1.0f64.to_bits(), 2.0f64.to_bits()]);
}

#[test]
fn numeric_identities_hold() {
    for x in [0.5, -3.0, 1e10, 7.0] {
        let inputs = [("x", num(x))];
        assert_eq!(number_of("x + 0", &inputs), x);
        assert_eq!(number_of("x * 1", &inputs), x);
        assert_eq!(number_of("x - x", &inputs), 0.0);
        assert_eq!(number_of("x / x", &inputs), 1.0);
        assert_eq!(number_of("x ** 0", &inputs), 1.0);
        assert!(approx_eq(number_of("sin(x)**2 + cos(x)**2", &inputs), 1.0));
    }
}

#[test]
fn the_same_program_with_the_same_inputs_gives_the_same_value() {
    let inputs = vec![("v".to_string(), arr(&[0.3, 0.7, 1.9])), ("a".to_string(), num(2.25))];
    let mut evaluator = compiled("std(v) / avg(v) + a * sum(sin(v))", &inputs);
    let first = run(&mut evaluator, &inputs).unwrap();
    let second = run(&mut evaluator, &inputs).unwrap();
    let mut again = compiled("std(v) / avg(v) + a * sum(sin(v))", &inputs);
    let third = run(&mut again, &inputs).unwrap();
    assert_eq!(first, second);
    assert_eq!(first, third);
}

#[test]
fn a_second_run_equals_the_first_whatever_came_before() {
    let expression = "max(v) * 2.5 - v[i] / (a + 1e-3)";
    let stale = vec![
        ("v".to_string(), arr(&[9.0, 8.0])),
        ("i".to_string(), num(1.0)),
        ("a".to_string(), arr(&[1.0, 2.0, 3.0])),
    ];
    let inputs = vec![
        ("v".to_string(), arr(&[0.5, 1.5, 2.5])),
        ("i".to_string(), num(-1.0)),
        ("a".to_string(), num(4.0)),
    ];
    let mut evaluator = compiled(expression, &inputs);
    let _ = run(&mut evaluator, &stale);
    let first = run(&mut evaluator, &inputs);
    let second = run(&mut evaluator, &inputs);
    let third = run_by_steps(&mut evaluator, &inputs).map(|(v, _)| v);
    assert_eq!(first, Ok(num(2.5 * 2.5 - 2.5 / (4.0 + 1e-3))));
    assert_eq!(second, first);
    assert_eq!(third, first);
}

#[test]
fn a_second_run_comes_to_the_same_error() {
    let inputs = vec![("v".to_string(), arr(&[1.0, 2.0])), ("w".to_string(), arr(&[1.0]))];
    let mut evaluator = compiled("sum(v) + v * w - 3", &inputs);
    let first = run(&mut evaluator, &inputs);
    let second = run(&mut evaluator, &inputs);
    assert!(first.is_err());
    assert_eq!(second, first);

    let missing = vec![("v".to_string(), arr(&[1.0, 2.0]))];
    let mut evaluator = compiled("v + w", &inputs);
    let first = run(&mut evaluator, &missing);
    assert_eq!(first, Err(invalid_arguments("w", "has no value")));
    assert_eq!(run(&mut evaluator, &missing), first);

    let deaf = |request: &Request| match request {
        Request::Literal(_) => Answer::NoInteger,
        other => unit(other),
    };
    let mut evaluator = Evaluator::new("1 + 2", &[]).unwrap();
    let no_inputs = Vec::new();
    assert_eq!(evaluator.evaluate_with(&no_inputs, deaf), Err(EvaluationError::Unknown));
    assert_eq!(evaluator.evaluate_with(&no_inputs, deaf), Err(EvaluationError::Unknown));
    assert_eq!(run(&mut evaluator, &no_inputs), Ok(num(3.0)));
    assert_eq!(run(&mut evaluator, &no_inputs), Ok(num(3.0)));
}

#[test]
fn a_program_is_evaluated_again_with_new_inputs() {
    let mut evaluator = Evaluator::new("a * x + 1", &["a", "x"]).unwrap();
    let first = vec![("a".to_string(), num(2.0)), ("x".to_string(), num(3.0))];
    assert_eq!(run(&mut evaluator, &first), Ok(num(7.0)));
    let second = vec![("x".to_string(), arr(&[1.0, 2.0]))];
    assert_eq!(run(&mut evaluator, &second), Ok(arr(&[3.0, 5.0])));
    let third = vec![("a".to_string(), num(1.0)), ("a".to_string(), num(-1.0))];
    assert_eq!(run(&mut evaluator, &third), Ok(arr(&[0.0, -1.0])));
}

#[test]
fn addition_and_multiplication_commute() {
    let inputs = [("a", num(0.1)), ("b", num(0.7)), ("v", arr(&[1.5, -2.0])), ("w", arr(&[0.3, 9.0]))];
    for (left, right) in [
        ("a + b", "b + a"),
        ("a * b", "b * a"),
        ("a + v", "v + a"),
        ("a * v", "v * a"),
        ("v + w", "w + v"),
        ("v * w", "w * v"),
        ("min(a, b)", "min(b, a)"),
        ("max(a, b)", "max(b, a)"),
        ("avg(a, b)", "avg(b, a)"),
        ("sum(a, b)", "sum(b, a)"),
    ] {
        assert_eq!(value_of(left, &inputs), value_of(right, &inputs), "{}", left);
    }
}

#[test]
fn an_input_used_twice_has_one_slot() {
    assert_eq!(number_of("x * x", &[("x", num(3.0))]), 9.0);
    assert_eq!(number_of("x * x + x", &[("x", num(3.0))]), 12.0);
    assert_eq!(number_of("(a + x) + ((x * 2) * 3)", &[("a", num(1.0)), ("x", num(3.0))]), 22.0);
    let evaluator = Evaluator::new("(a + x) + ((x * 2) * 3)", &["a", "x"]).unwrap();
    assert_eq!(evaluator.alias("a"), Some(3));
    assert_eq!(evaluator.alias("x"), Some(4));
    assert_eq!(evaluator.alias("y"), None);
    assert_eq!(evaluator.operation(5).unwrap().args, vec![4, 7]);
}

fn operations(evaluator: &Evaluator) -> Vec<(u16, Vec<u16>, String)> {
    let mut found = Vec::new();
    for id in 0..evaluator.nodes() {
        if let Some(operation) = evaluator.operation(id as u16) {
            found.push((id as u16, operation.args.clone(), operation.op.token.to_string()));
        }
    }
    found
}

#[test]
fn ids_are_given_from_the_root_down() {
    let evaluator = Evaluator::new("cos(pi * (sin(x)^2 + cos(x)^2) / 2)", &["x"]).unwrap();
    assert_eq!(evaluator.nodes(), 13);
    assert_eq!(
        operations(&evaluator),
        vec![
            (0, vec![1], "Cos".to_string()),
            (1, vec![2, 3], "/".to_string()),
            (2, vec![4, 5], "*".to_string()),
            (5, vec![6, 7], "+".to_string()),
            (6, vec![8, 9], "**".to_string()),
            (7, vec![11, 12], "**".to_string()),
            (8, vec![10], "Sin".to_string()),
            (11, vec![10], "Cos".to_string()),
        ]
    );
    assert_eq!(evaluator.alias("x"), Some(10));
    assert_eq!(evaluator.value(4), Some(&Value::Number(dymex::Constant::Pi.value())));
    assert_eq!(evaluator.value(3), None);
    assert_eq!(evaluator.value(10), None);
}

#[test]
fn every_operand_has_a_higher_id_or_is_an_input() {
    let sources = [
        "(1.0 + (a - b)*c) / 2",
        "min(a, max(5.0, max(abs(v))**2))",
        "(a + x) + ((x * 2) * 3)",
        "a*x + b",
        "x",
        "sum(x, x, x) * v[x] - -a",
    ];
    for source in sources {
        let evaluator = Evaluator::new(source, &["a", "b", "c", "v", "x"]).unwrap();
        let slots: Vec<u16> =
            ["a", "b", "c", "v", "x"].iter().filter_map(|n| evaluator.alias(n)).collect();
        for (id, args, _) in operations(&evaluator) {
            for arg in args {
                assert!((arg as u32) < evaluator.nodes());
                assert!(arg > id || slots.contains(&arg), "{}: {} under {}", source, arg, id);
            }
        }
    }
    let evaluator = Evaluator::new("(a + x) + ((x * 2) * 3)", &["a", "x"]).unwrap();
    let lower: Vec<(u16, u16)> = operations(&evaluator)
        .iter()
        .flat_map(|(id, args, _)| args.iter().filter(|a| **a < *id).map(|a| (*id, *a)).collect::<Vec<_>>())
        .collect();
    assert_eq!(lower, vec![(5, 4)]);
}

#[test]
fn evaluating_leaves_the_program_as_it_is() {
    let inputs = vec![("v".to_string(), arr(&[0.3, 0.7, 1.9])), ("a".to_string(), num(2.25))];
    let mut evaluator = compiled("std(v) / avg(v) + a * sum(sin(v))", &inputs);
    let before = operations(&evaluator);
    let nodes = evaluator.nodes();
    let slots = (evaluator.alias("v"), evaluator.alias("a"));
    run(&mut evaluator, &inputs).unwrap();
    assert_eq!(operations(&evaluator), before);
    assert_eq!(evaluator.nodes(), nodes);
    assert_eq!((evaluator.alias("v"), evaluator.alias("a")), slots);
    assert!(evaluator.value(0).is_some());

    let mut failing = compiled("v + a.x", &inputs);
    let before = operations(&failing);
    assert!(run(&mut failing, &inputs).is_err());
    assert_eq!(operations(&failing), before);
}

#[test]
fn an_empty_expression_is_refused_before_it_is_evaluated() {
    assert_eq!(
        Evaluator::new("", &[]).unwrap_err(),
        dymex::DymexError::ParsingError(dymex::ParsingError::UnexpectedToken(0))
    );
    assert_eq!(
        Evaluator::new("  \t ", &["x"]).unwrap_err(),
        dymex::DymexError::ParsingError(dymex::ParsingError::UnexpectedToken(4))
    );
    assert_eq!(
        Evaluator::new("max()", &[]).unwrap_err(),
        dymex::DymexError::ParsingError(dymex::ParsingError::MissingArgument(0))
    );
    assert_eq!(
        Evaluator::new("1 + $", &[]).unwrap_err(),
        dymex::DymexError::LexicalError(dymex::TokenizerError::InvalidCharacter('$', 4))
    );
}

fn nested(groups: &[usize]) -> String {
    let inner: Vec<String> = groups
        .iter()
        .map(|n| format!("max({})", (0..*n).map(|_| "1").collect::<Vec<_>>().join(",")))
        .collect();
    let middle: Vec<String> = inner.chunks(64).map(|c| format!("max({})", c.join(","))).collect();
    format!("max({})", middle.join(","))
}

#[test]
fn a_program_has_at_most_65536_nodes() {
    let mut groups = vec![15usize; 4031];
    groups.extend(vec![14usize; 65]);
    assert_eq!(1 + 64 + 4096 + groups.iter().sum::<usize>(), 65536);
    let evaluator = Evaluator::new(&nested(&groups), &[]).unwrap();
    assert_eq!(evaluator.nodes(), 65536);
    assert_eq!(evaluator.operation(0).unwrap().args.len(), 64);
    assert_eq!(evaluator.operation(1).unwrap().args[0], 65);
    assert!(evaluator.operation(65535).is_none());

    groups[0] = 16;
    assert_eq!(
        Evaluator::new(&nested(&groups), &[]).unwrap_err(),
        dymex::DymexError::ParsingError(dymex::ParsingError::NotImplemented(
            "expressions of more than 65536 nodes".into()
        ))
    );
}

#[test]
fn a_program_without_a_tree_is_empty() {
    let ast = dymex::AST::new(dymex::TokenStream::new());
    let mut evaluator = dymex::flatten_tree(ast).unwrap();
    assert_eq!(evaluator.nodes(), 0);
    assert_eq!(evaluator.evaluate(&Vec::new()), Err(EvaluationError::Unknown));
}

#[test]
fn ids_count_up_until_none_is_left() {
    let mut ids = dymex::IdGenerator::new();
    assert_eq!(ids.get_id(), Some(0));
    assert_eq!(ids.get_id(), Some(1));
    for expected in 2..=65535u32 {
        assert_eq!(ids.get_id(), Some(expected as u16));
    }
    assert_eq!(ids.count(), 65536);
    assert_eq!(ids.get_id(), None);
    assert_eq!(ids.get_id(), None);
    assert_eq!(ids.count(), 65536);
}

#[test]
fn the_steps_of_an_evaluation_are_asked_from_the_highest_id_down() {
    let inputs = vec![("x".to_string(), num(3.0))];
    let mut evaluator = Evaluator::new("(x + 1) * (x - 2)", &["x"]).unwrap();
    let mut asked = Vec::new();
    let mut step = evaluator.evaluate(&inputs).unwrap();
    let value = loop {
        match step {
            Step::Done(v) => break v,
            Step::Ask(request) => {
                asked.push(format!("{:?}", request).split(|c| c == '(' || c == ' ').next().unwrap().to_string());
                if let Request::Binary { op, .. } = &request {
                    asked.push(op.to_string());
                }
                step = evaluator.resume(unit(&request)).unwrap();
            }
        }
    };
    assert_eq!(value, num(4.0));
    assert_eq!(asked, vec!["Literal", "Literal", "Binary", "-", "Binary", "+", "Binary", "*"]);
}

#[test]
fn errors_are_said_in_words() {
    assert_eq!(
        invalid_binary("+", "Array", "Unique").to_string(),
        "operation `\"+\"` not supported between `\"Array\"` and `\"Unique\"`"
    );
    assert_eq!(
        invalid_unary("sin()", "Unique").to_string(),
        "operation `\"sin()\"` not applicable to `\"Unique\"`"
    );
    assert_eq!(
        EvaluationError::InvalidField { kind_name: "Number", field: "a\"b\n".into() }.to_string(),
        "`\"Number\"` has no field named `\"a\\\"b\\n\"`"
    );
    assert_eq!(
        invalid_arguments("max", "needs at least one argument").to_string(),
        "invalid arguments for `\"max\"`: \"needs at least one argument\""
    );
    assert_eq!(EvaluationError::Unknown.to_string(), "unknown error");
}

#[test]
fn a_run_by_steps_and_a_run_at_once_come_to_the_same() {
    let inputs = vec![("v".to_string(), arr(&[0.3, 0.7, 1.9])), ("a".to_string(), num(2.25))];
    for source in ["std(v) / avg(v) + a * sum(sin(v))", "a", "-v[1] ** 2", "v + a.x", "7"] {
        let mut stepped = compiled(source, &inputs);
        let mut whole = compiled(source, &inputs);
        let by_steps = run_by_steps(&mut stepped, &inputs);
        let at_once = run(&mut whole, &inputs);
        assert_eq!(by_steps.clone().map(|(v, _)| v), at_once, "{}", source);
        if let Ok((_, requests)) = by_steps {
            assert!(requests as u32 <= whole.nodes());
            let again = run_by_steps(&mut stepped, &inputs).unwrap();
            assert!(again.1 <= requests);
        }
    }
}

#[test]
fn a_unit_that_answers_wrongly_ends_the_run() {
    let inputs = vec![("x".to_string(), num(1.0))];
    let mut evaluator = Evaluator::new("sin(x) + 1", &["x"]).unwrap();
    let silent = |_: &Request| Answer::Numbers(Vec::new());
    assert_eq!(evaluator.evaluate_with(&inputs, silent), Err(EvaluationError::Unknown));
    let constant = |_: &Request| Answer::Numbers(vec![2.0f64.to_bits()]);
    assert_eq!(evaluator.evaluate_with(&inputs, constant), Ok(num(2.0)));
}

fn value_of_tree(tree: &dymex::Branch, inputs: &Vec<(String, Value)>) -> Option<Value> {
    match tree {
        dymex::Branch::Atom(tc) => match &tc.token {
            Token::Number(text) => match unit(&Request::Literal(text.clone())) {
                Answer::Numbers(r) if r.len() == 1 => Some(Value::Number(r[0])),
                _ => None,
            },
            Token::Const(c) => Some(Value::Number(c.value())),
            Token::Var(name) => {
                inputs.iter().rev().find(|(n, _)| n == name).map(|(_, v)| v.clone())
            }
            _ => None,
        },
        dymex::Branch::Expression(tc, children) => {
            let looked_at = if tc.token == Token::Dot && children.len() == 2 {
                &children[..1]
            } else {
                &children[..]
            };
            let mut operands = Vec::new();
            for child in looked_at {
                operands.push(value_of_tree(child, inputs)?);
            }
            let field = match children.get(1) {
                Some(dymex::Branch::Atom(tc)) if children.len() == 2 => match &tc.token {
                    Token::Var(name) => name.clone(),
                    _ => String::new(),
                },
                _ => String::new(),
            };
            match dymex::decide(&tc.token, &operands, &field) {
                Ok(Plan::Ready(v)) => Some(v),
                Ok(Plan::Ask(request)) => {
                    dymex::complete(&tc.token, &operands, &field, unit(&request)).ok()
                }
                Err(_) => None,
            }
        }
    }
}

#[test]
fn the_value_of_an_expression_is_the_value_of_its_tree() {
    let inputs = vec![
        ("a".to_string(), num(2.25)),
        ("b".to_string(), num(-0.5)),
        ("v".to_string(), arr(&[0.3, 0.7, 1.9])),
        ("w".to_string(), arr(&[1.0, 2.0])),
        ("u".to_string(), Value::Unique(1)),
    ];
    let sources = [
        "7",
        "a",
        "v",
        "a * a + a",
        "(1.0 + (a - b)*a) / 2",
        "min(a, max(5.0, max(abs(v))**2))",
        "std(v) / avg(v) + a * sum(sin(v))",
        "(a + b) + ((b * 2) * 3)",
        "-v[1] ** 2 + v[-1] * pi",
        "sum(a, b, a, b) - 1e-3",
        "v + w",
        "v.x",
        "a + u",
        "v[3]",
        "max(a, v)",
        "sqrt(v) / (b - b)",
        "c + 1",
    ];
    for source in sources {
        let tree = {
            let mut ts = dymex::TokenStream::new();
            ts.update(source, &["a", "b", "c", "v", "w", "u"]).unwrap();
            let mut ast = dymex::AST::new(ts);
            ast.parse_tokens().unwrap();
            ast.tree.unwrap()
        };
        let mut evaluator = Evaluator::new(source, &["a", "b", "c", "v", "w", "u"]).unwrap();
        let first = run(&mut evaluator, &inputs).ok();
        assert_eq!(first, value_of_tree(&tree, &inputs), "{}", source);
        let second = run(&mut evaluator, &inputs).ok();
        assert_eq!(second, first, "{}", source);
    }
}
