use interpolation_engine::math::{
    check_expression, find_function_name, find_innermost_parens, is_numeric_argument, list_length,
    list_numbers, next_reduction, precedence, splice_value, to_rpn, tokenize, MathError, Operator,
    Token,
};
use interpolation_engine::model::{Clock, ProgramLoadContext};
use interpolation_engine::value::{Number, Object, Value};

fn chars(s: &str) -> Vec<char> {
    s.chars().collect()
}

fn num(i: i64) -> Value {
    Value::Number(Number::Int(i))
}

fn inserts() -> Object {
    let mut o = Object::new();
    o.insert("xs".to_string(), Value::Array(vec![num(1), num(2), num(3), num(4)]));
    o.insert("mixed".to_string(), Value::Array(vec![num(1), Value::Null]));
    o.insert("none".to_string(), Value::Array(vec![]));
    o.insert("n".to_string(), num(1));
    o
}

fn ctx() -> ProgramLoadContext {
    ProgramLoadContext::new("p.json5".to_string(), Some(".".to_string()), None).unwrap()
}

fn clock() -> Clock {
    Clock { hour_minute: "00:00".to_string(), hour_minute_second: "00:00:00".to_string() }
}

fn shown(tokens: &Vec<Token>) -> String {
    tokens
        .iter()
        .map(|t| match t {
            Token::Number(n) => n.clone(),
            Token::Op(op) => op.sign().to_string(),
        })
        .collect::<Vec<String>>()
        .join(" ")
}

fn evaluate(rpn: &Vec<Token>) -> f64 {
    let mut stack: Vec<f64> = Vec::new();
    for t in rpn {
        match t {
            Token::Number(n) => stack.push(n.parse().unwrap()),
            Token::Op(op) => {
                let b = stack.pop().unwrap();
                let a = stack.pop().unwrap();
                stack.push(match op {
                    Operator::Add => a + b,
                    Operator::Sub => a - b,
                    Operator::Mul => a * b,
                    Operator::Div => a / b,
                    Operator::Rem => a % b,
                    Operator::Pow => a.powf(b),
                });
            }
        }
    }
    stack[0]
}

#[test]
fn math_with_list_length() {
    let expr = "length(xs) + 1";
    assert_eq!(check_expression(expr), Ok(()));
    let r = next_reduction(expr).unwrap();
    assert_eq!(r.function, Some("length".to_string()));
    assert_eq!(r.inner, "xs");
    assert_eq!((r.start, r.end), (0, 9));
    let n = list_length(&inserts(), &r.inner, &ctx(), &clock()).unwrap();
    assert_eq!(n, 4);
    let reduced = splice_value(expr, r.start, r.end, &n.to_string());
    assert_eq!(reduced, "4 + 1");
    assert!(next_reduction(&reduced).is_none());
    let rpn = to_rpn(&tokenize(&reduced).unwrap());
    assert_eq!(shown(&rpn), "4 1 +");
    assert_eq!(evaluate(&rpn), 5.0);
}

#[test]
fn min_and_max_arguments() {
    assert!(!is_numeric_argument("xs"));
    assert!(is_numeric_argument("1,2,3"));
    assert!(is_numeric_argument(" 1.5 , -2 * 3 "));
    let numbers = list_numbers(&inserts(), "xs", &ctx(), &clock()).unwrap();
    assert_eq!(numbers, vec![num(1), num(2), num(3), num(4)]);
    assert_eq!(list_numbers(&inserts(), "none", &ctx(), &clock()), Err(MathError::EmptyList));
    assert_eq!(list_numbers(&inserts(), "mixed", &ctx(), &clock()), Err(MathError::NotNumbers));
    assert_eq!(list_numbers(&inserts(), "n", &ctx(), &clock()), Err(MathError::NotAList));
    assert_eq!(list_numbers(&inserts(), "gone", &ctx(), &clock()), Err(MathError::UnknownKey));
    assert_eq!(list_length(&inserts(), "n", &ctx(), &clock()), Err(MathError::NotAList));
}

#[test]
fn legal_expressions() {
    assert_eq!(check_expression("1 + 2 * (3 - 4) ^ 2 % 5 / max(1,2)"), Ok(()));
    assert_eq!(check_expression("1 + $"), Err(MathError::IllegalCharacter));
    assert_eq!(check_expression("1 = 1"), Err(MathError::IllegalCharacter));
    assert_eq!(check_expression("(1 + 2"), Err(MathError::Parentheses));
    assert_eq!(check_expression(""), Ok(()));
}

#[test]
fn the_innermost_group() {
    assert_eq!(find_innermost_parens(&chars("1 + (2 * (3 + 4)) + (5)")), Some((9, 15)));
    assert_eq!(find_innermost_parens(&chars("no groups")), None);
    assert_eq!(find_innermost_parens(&chars(") (")), None);
    assert_eq!(find_function_name(&chars("1+round(2)"), 7), (Some("round".to_string()), 2));
    assert_eq!(find_function_name(&chars("1+(2)"), 2), (None, 2));
    assert_eq!(find_function_name(&chars("(2)"), 0), (None, 0));
    let r = next_reduction("2 * (3 + 4)").unwrap();
    assert_eq!(r.function, None);
    assert_eq!(r.inner, "3 + 4");
    assert_eq!(splice_value("2 * (3 + 4)", r.start, r.end, "7"), "2 * 7");
}

#[test]
fn tokens_and_their_order() {
    assert_eq!(shown(&tokenize("1 + 2 * 3").unwrap()), "1 + 2 * 3");
    assert_eq!(shown(&to_rpn(&tokenize("1 + 2 * 3").unwrap())), "1 2 3 * +");
    assert_eq!(shown(&to_rpn(&tokenize("1 * 2 + 3").unwrap())), "1 2 * 3 +");
    assert_eq!(shown(&to_rpn(&tokenize("2 ^ 3 ^ 2").unwrap())), "2 3 ^ 2 ^");
    assert_eq!(shown(&to_rpn(&tokenize("8 - 3 - 2").unwrap())), "8 3 - 2 -");
    assert_eq!(shown(&tokenize("-3 - -2").unwrap()), "-3 - -2");
    assert_eq!(shown(&tokenize("1.5*.5").unwrap()), "1.5 * .5");
    assert_eq!(shown(&tokenize("").unwrap()), "");
    assert!(matches!(tokenize("1 + x"), Err(MathError::UnexpectedCharacter)));
    assert!(matches!(tokenize("(1)"), Err(MathError::UnexpectedCharacter)));
    assert_eq!(evaluate(&to_rpn(&tokenize("1 + 2 * 3 - 4 / 2").unwrap())), 5.0);
    assert_eq!(evaluate(&to_rpn(&tokenize("-3 * 2").unwrap())), -6.0);
}

#[test]
fn precedences() {
    assert_eq!(precedence('^'), 4);
    assert_eq!(precedence('*'), 3);
    assert_eq!(precedence('/'), 3);
    assert_eq!(precedence('%'), 3);
    assert_eq!(precedence('+'), 2);
    assert_eq!(precedence('-'), 2);
    assert_eq!(precedence('x'), 0);
}
