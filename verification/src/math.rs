//! The shape of arithmetic expressions: which characters they may hold,
//! where their innermost group of parentheses stands and what it is called
//! with, and how a group without parentheses is cut into numbers and
//! operators and put into the order of evaluation. The arithmetic itself is
//! done on what these functions return.

use crate::interp::{is_digit, resolve, resolve_chars, scope_of, Scope};
use crate::model::{Clock, ProgramLoadContext};
use crate::text::{
    append_chars, chars_of, count_char, count_of, is_space, is_whitespace, slice_chars, string_of,
};
use crate::value::{lemma_list_view, list_view, Json, Number, Object, Value};
use vstd::prelude::*;

verus! {

/// Why an expression is not of the shape that arithmetic needs.
#[derive(Clone, Copy, Debug, PartialEq, Eq, Structural)]
pub enum MathError {
    /// A character that no expression may hold.
    IllegalCharacter,
    /// The parentheses do not pair up.
    Parentheses,
    /// A character that no arithmetic may hold.
    UnexpectedCharacter,
    /// `length`, `min` or `max` of what is no list.
    NotAList,
    /// `min` or `max` of an empty list.
    EmptyList,
    /// `min` or `max` of a list that holds what is no number.
    NotNumbers,
    /// The key of `length`, `min` or `max` has no value.
    UnknownKey,
}

/// An operator of arithmetic.
#[derive(Clone, Copy, Debug, PartialEq, Eq, Structural)]
pub enum Operator {
    Add,
    Sub,
    Mul,
    Div,
    Rem,
    Pow,
}

/// A number as it is written, or an operator.
#[derive(Debug)]
pub enum Token {
    Number(String),
    Op(Operator),
}

/// The model of a `Token`.
pub enum TokenView {
    Number(Seq<char>),
    Op(Operator),
}

/// The operator that `c` is the sign of.
pub open spec fn operator_of(c: char) -> Option<Operator> {
    if c == '+' {
        Some(Operator::Add)
    } else if c == '-' {
        Some(Operator::Sub)
    } else if c == '*' {
        Some(Operator::Mul)
    } else if c == '/' {
        Some(Operator::Div)
    } else if c == '%' {
        Some(Operator::Rem)
    } else if c == '^' {
        Some(Operator::Pow)
    } else {
        None
    }
}

/// The sign of the operator `op`.
pub open spec fn sign_of(op: Operator) -> char {
    match op {
        Operator::Add => '+',
        Operator::Sub => '-',
        Operator::Mul => '*',
        Operator::Div => '/',
        Operator::Rem => '%',
        Operator::Pow => '^',
    }
}

/// The operator that `c` is the sign of.
pub fn operator_for(c: char) -> (r: Option<Operator>)
    ensures
        r == operator_of(c),
{
    if c == '+' {
        Some(Operator::Add)
    } else if c == '-' {
        Some(Operator::Sub)
    } else if c == '*' {
        Some(Operator::Mul)
    } else if c == '/' {
        Some(Operator::Div)
    } else if c == '%' {
        Some(Operator::Rem)
    } else if c == '^' {
        Some(Operator::Pow)
    } else {
        None
    }
}

impl Operator {
    /// The sign of the operator.
    pub fn sign(self) -> (c: char)
        ensures
            c == sign_of(self),
            operator_of(c) == Some(self),
    {
        match self {
            Operator::Add => '+',
            Operator::Sub => '-',
            Operator::Mul => '*',
            Operator::Div => '/',
            Operator::Rem => '%',
            Operator::Pow => '^',
        }
    }
}

impl View for Token {
    type V = TokenView;

    open spec fn view(&self) -> TokenView {
        match self {
            Token::Number(n) => TokenView::Number(n@),
            Token::Op(c) => TokenView::Op(*c),
        }
    }
}

/// The models of `tokens`, in order.
pub open spec fn tokens_view(tokens: Seq<Token>) -> Seq<TokenView>
    decreases tokens.len(),
{
    if tokens.len() == 0 {
        Seq::empty()
    } else {
        tokens_view(tokens.take(tokens.len() - 1)).push(tokens[tokens.len() - 1]@)
    }
}

/// The model of a list of tokens with one more token behind it.
pub proof fn lemma_tokens_push(tokens: Seq<Token>, t: Token)
    ensures
        tokens_view(tokens.push(t)) == tokens_view(tokens).push(t@),
{
    assert(tokens.push(t).take(tokens.len() as int) == tokens);
}

/// A letter of the Latin alphabet.
pub open spec fn is_ascii_letter(c: char) -> bool {
    ('a' <= c && c <= 'z') || ('A' <= c && c <= 'Z')
}

/// The sign of an operator.
pub open spec fn is_operator(c: char) -> bool {
    c == '+' || c == '-' || c == '*' || c == '/' || c == '%' || c == '^'
}

/// A character that an expression may hold: a digit, a space, a full
/// stop, an operator, a parenthesis, a comma, an underscore or a letter.
pub open spec fn is_legal(c: char) -> bool {
    c == ' ' || c == '.' || is_digit(c) || is_operator(c) || c == '(' || c == ')' || c == ','
        || c == '_' || is_ascii_letter(c)
}

/// A character that the name of a function may hold.
pub open spec fn is_name_char(c: char) -> bool {
    is_ascii_letter(c) || is_digit(c) || c == '_'
}

/// Why `expr` is no expression, if it is none.
pub open spec fn expression_fault(expr: Seq<char>) -> Option<MathError> {
    if exists|i: int| 0 <= i < expr.len() && !is_legal(#[trigger] expr[i]) {
        Some(MathError::IllegalCharacter)
    } else if count_of(expr, '(') != count_of(expr, ')') {
        Some(MathError::Parentheses)
    } else {
        None
    }
}

fn is_legal_char(c: char) -> (r: bool)
    ensures
        r == is_legal(c),
{
    c == ' ' || c == '.' || ('0' <= c && c <= '9') || c == '+' || c == '-' || c == '*' || c == '/'
        || c == '%' || c == '^' || c == '(' || c == ')' || c == ',' || c == '_' || ('a' <= c && c
        <= 'z') || ('A' <= c && c <= 'Z')
}

/// Checks that `expr` holds legal characters only and as many opening as
/// closing parentheses.
pub fn check_expression(expr: &str) -> (r: Result<(), MathError>)
    ensures
        match r {
            Ok(_) => expression_fault(expr@) is None,
            Err(e) => expression_fault(expr@) == Some(e),
        },
{
    let c = chars_of(expr);
    let mut i: usize = 0;
    while i < c.len()
        invariant
            i <= c.len(),
            c@ == expr@,
            forall|k: int| 0 <= k < i ==> is_legal(#[trigger] c@[k]),
        decreases c.len() - i,
    {
        if !is_legal_char(c[i]) {
            return Err(MathError::IllegalCharacter);
        }
        i += 1;
    }
    if count_char(&c, '(') != count_char(&c, ')') {
        return Err(MathError::Parentheses);
    }
    Ok(())
}

/// The first closing parenthesis at or after `from` that has an opening
/// one before it, with the last opening one before it; `last_open` is the
/// last opening one before `from`, or -1.
pub open spec fn innermost_from(s: Seq<char>, from: int, last_open: int) -> Option<(int, int)>
    decreases s.len() - from,
{
    if from < 0 || from >= s.len() {
        None
    } else if s[from] == '(' {
        innermost_from(s, from + 1, from)
    } else if s[from] == ')' && last_open >= 0 {
        Some((last_open, from))
    } else {
        innermost_from(s, from + 1, last_open)
    }
}

/// The innermost group of `s` that closes first: the places of its parentheses.
pub open spec fn innermost(s: Seq<char>) -> Option<(int, int)> {
    innermost_from(s, 0, -1)
}

/// The places of the parentheses of the innermost group of `s` that closes first.
pub fn find_innermost_parens(s: &Vec<char>) -> (r: Option<(usize, usize)>)
    ensures
        match r {
            Some((a, b)) => innermost(s@) == Some((a as int, b as int)) && a < b < s.len(),
            None => innermost(s@) is None,
        },
{
    let mut last_open: Option<usize> = None;
    let mut i: usize = 0;
    while i < s.len()
        invariant
            i <= s.len(),
            match last_open {
                Some(p) => p < i,
                None => true,
            },
            innermost(s@) == innermost_from(
                s@,
                i as int,
                match last_open {
                    Some(p) => p as int,
                    None => -1,
                },
            ),
        decreases s.len() - i,
    {
        if s[i] == '(' {
            last_open = Some(i);
        } else if s[i] == ')' {
            match last_open {
                Some(start) => {
                    return Some((start, i));
                },
                None => {},
            }
        }
        i += 1;
    }
    None
}

/// Where the name that ends before place `p` of `s` begins: `p` where none does.
pub open spec fn name_start(s: Seq<char>, p: int) -> int
    decreases p,
{
    if p <= 0 || p > s.len() || !is_name_char(s[p - 1]) {
        p
    } else {
        name_start(s, p - 1)
    }
}

/// The name of the function that the parenthesis at `paren_index` belongs
/// to, if a name stands before it, and the place where the call begins.
pub fn find_function_name(s: &Vec<char>, paren_index: usize) -> (r: (Option<String>, usize))
    requires
        paren_index <= s.len(),
    ensures
        r.1 == name_start(s@, paren_index as int),
        r.1 <= paren_index,
        match r.0 {
            Some(name) => r.1 < paren_index && name@ == s@.subrange(r.1 as int, paren_index as int),
            None => r.1 == paren_index,
        },
{
    let mut i: usize = paren_index;
    while i > 0 && (('a' <= s[i - 1] && s[i - 1] <= 'z') || ('A' <= s[i - 1] && s[i - 1] <= 'Z') || (
    '0' <= s[i - 1] && s[i - 1] <= '9') || s[i - 1] == '_')
        invariant
            i <= paren_index <= s.len(),
            name_start(s@, paren_index as int) == name_start(s@, i as int),
        decreases i,
    {
        i -= 1;
    }
    if i < paren_index {
        let name = slice_chars(s, i, paren_index);
        (Some(string_of(&name)), i)
    } else {
        (None, paren_index)
    }
}

/// What is to be evaluated next in an expression: its innermost group,
/// with the name of the function that it is the argument of, if any.
#[derive(Debug)]
pub struct Reduction {
    /// Where what the value takes the place of begins: at the name of the
    /// function, or at the opening parenthesis.
    pub start: usize,
    /// The place of the closing parenthesis.
    pub end: usize,
    pub function: Option<String>,
    /// What stands between the parentheses.
    pub inner: String,
}

/// The model of a `Reduction`.
pub struct ReductionView {
    pub start: int,
    pub end: int,
    pub function: Option<Seq<char>>,
    pub inner: Seq<char>,
}

impl View for Reduction {
    type V = ReductionView;

    open spec fn view(&self) -> ReductionView {
        ReductionView {
            start: self.start as int,
            end: self.end as int,
            function: match self.function {
                Some(f) => Some(f@),
                None => None,
            },
            inner: self.inner@,
        }
    }
}

/// What is to be evaluated next in `expr`; nothing where it has no group.
pub open spec fn reduction_of(expr: Seq<char>) -> Option<ReductionView> {
    match innermost(expr) {
        None => None,
        Some((open, close)) => {
            let start = name_start(expr, open);
            Some(
                ReductionView {
                    start,
                    end: close,
                    function: if start < open {
                        Some(expr.subrange(start, open))
                    } else {
                        None
                    },
                    inner: expr.subrange(open + 1, close),
                },
            )
        },
    }
}

/// What is to be evaluated next in `expr`.
pub fn next_reduction(expr: &str) -> (r: Option<Reduction>)
    ensures
        match r {
            Some(x) => reduction_of(expr@) == Some(x@) && x.start <= x.end < expr@.len(),
            None => reduction_of(expr@) is None,
        },
{
    let c = chars_of(expr);
    match find_innermost_parens(&c) {
        None => None,
        Some((open, close)) => {
            let (function, start) = find_function_name(&c, open);
            let inner = slice_chars(&c, open + 1, close);
            Some(Reduction { start, end: close, function, inner: string_of(&inner) })
        },
    }
}

/// `expr` with `value` in the place of what stands from `start` to `end`.
pub fn splice_value(expr: &str, start: usize, end: usize, value: &str) -> (r: String)
    requires
        start <= end < expr@.len(),
    ensures
        r@ == expr@.take(start as int) + value@ + expr@.skip(end + 1),
{
    let c = chars_of(expr);
    assert(end < c.len());
    let mut out = slice_chars(&c, 0, start);
    append_chars(&mut out, &chars_of(value));
    let tail = slice_chars(&c, end + 1, c.len());
    append_chars(&mut out, &tail);
    string_of(&out)
}

/// How tightly the operator `op` binds.
pub open spec fn precedence_of(op: char) -> int {
    if op == '^' {
        4
    } else if op == '*' || op == '/' || op == '%' {
        3
    } else if op == '+' || op == '-' {
        2
    } else {
        0
    }
}

/// How tightly the operator `op` binds.
pub fn precedence(op: char) -> (r: i32)
    ensures
        r == precedence_of(op),
{
    if op == '^' {
        4
    } else if op == '*' || op == '/' || op == '%' {
        3
    } else if op == '+' || op == '-' {
        2
    } else {
        0
    }
}

/// A character of a number: a digit or a full stop.
pub open spec fn is_number_char(c: char) -> bool {
    is_digit(c) || c == '.'
}

/// The first place at or after `from` that holds no character of a number.
pub open spec fn number_end(s: Seq<char>, from: int) -> int
    decreases s.len() - from,
{
    if from < 0 || from >= s.len() || !is_number_char(s[from]) {
        from
    } else {
        number_end(s, from + 1)
    }
}

/// A number ends at or behind where it begins, and behind it where it begins with a character of a number.
pub proof fn lemma_number_end(s: Seq<char>, from: int)
    requires
        0 <= from <= s.len(),
    ensures
        from <= number_end(s, from) <= s.len(),
        from < s.len() && is_number_char(s[from]) ==> number_end(s, from) > from,
    decreases s.len() - from,
{
    if from < s.len() && is_number_char(s[from]) {
        lemma_number_end(s, from + 1);
    }
}

/// `acc` followed by the tokens of `s` from `from` on. White space parts
/// tokens. A minus sign where a number is due, at the start or behind an
/// operator, belongs to the number behind it.
pub open spec fn tokens_from(s: Seq<char>, from: int, number_due: bool, acc: Seq<TokenView>) -> Result<
    Seq<TokenView>,
    MathError,
>
    decreases s.len() - from,
{
    if from < 0 || from >= s.len() {
        Ok(acc)
    } else if is_space(s[from]) {
        tokens_from(s, from + 1, number_due, acc)
    } else if is_operator(s[from]) {
        if s[from] == '-' && number_due {
            proof {
                lemma_number_end(s, from + 1);
            }
            let end = number_end(s, from + 1);
            tokens_from(
                s,
                end,
                false,
                acc.push(TokenView::Number(seq!['-'] + s.subrange(from + 1, end))),
            )
        } else {
            tokens_from(s, from + 1, true, acc.push(TokenView::Op(operator_of(s[from])->Some_0)))
        }
    } else if is_number_char(s[from]) {
        proof {
            lemma_number_end(s, from);
        }
        let end = number_end(s, from);
        tokens_from(s, end, false, acc.push(TokenView::Number(s.subrange(from, end))))
    } else {
        Err(MathError::UnexpectedCharacter)
    }
}

/// The tokens of the arithmetic `expr`.
pub open spec fn tokens_of(expr: Seq<char>) -> Result<Seq<TokenView>, MathError> {
    tokens_from(expr, 0, true, Seq::empty())
}

fn scan_number(s: &Vec<char>, from: usize) -> (end: usize)
    requires
        from <= s.len(),
    ensures
        end == number_end(s@, from as int),
        from <= end <= s.len(),
{
    let mut i: usize = from;
    while i < s.len() && (('0' <= s[i] && s[i] <= '9') || s[i] == '.')
        invariant
            from <= i <= s.len(),
            number_end(s@, from as int) == number_end(s@, i as int),
        decreases s.len() - i,
    {
        i += 1;
    }
    i
}

/// Cuts the arithmetic `expr` into numbers and operators.
pub fn tokenize(expr: &str) -> (r: Result<Vec<Token>, MathError>)
    ensures
        match r {
            Ok(t) => tokens_of(expr@) == Ok::<Seq<TokenView>, MathError>(tokens_view(t@)),
            Err(e) => tokens_of(expr@) == Err::<Seq<TokenView>, MathError>(e),
        },
{
    let s = chars_of(expr);
    let mut tokens: Vec<Token> = Vec::new();
    let mut number_due = true;
    let mut i: usize = 0;
    while i < s.len()
        invariant
            i <= s.len(),
            s@ == expr@,
            tokens_of(expr@) == tokens_from(s@, i as int, number_due, tokens_view(tokens@)),
        decreases s.len() - i,
    {
        let ch = s[i];
        let ghost before = tokens@;
        if is_whitespace(ch) {
            i += 1;
        } else if let Some(op) = operator_for(ch) {
            if ch == '-' && number_due {
                let end = scan_number(&s, i + 1);
                let mut num: Vec<char> = Vec::new();
                num.push('-');
                append_chars(&mut num, &slice_chars(&s, i + 1, end));
                assert(num@ =~= seq!['-'] + s@.subrange(i + 1, end as int));
                let t = Token::Number(string_of(&num));
                proof {
                    lemma_tokens_push(before, t);
                }
                tokens.push(t);
                number_due = false;
                i = end;
            } else {
                proof {
                    lemma_tokens_push(before, Token::Op(op));
                }
                tokens.push(Token::Op(op));
                number_due = true;
                i += 1;
            }
        } else if ('0' <= ch && ch <= '9') || ch == '.' {
            proof {
                lemma_number_end(s@, i as int);
            }
            let end = scan_number(&s, i);
            let num = slice_chars(&s, i, end);
            let t = Token::Number(string_of(&num));
            proof {
                lemma_tokens_push(before, t);
            }
            tokens.push(t);
            number_due = false;
            i = end;
        } else {
            return Err(MathError::UnexpectedCharacter);
        }
    }
    Ok(tokens)
}

/// `out` followed by the operators of `ops`, the last first.
pub open spec fn flushed(ops: Seq<Operator>, out: Seq<TokenView>) -> Seq<TokenView>
    decreases ops.len(),
{
    if ops.len() == 0 {
        out
    } else {
        flushed(ops.take(ops.len() - 1), out.push(TokenView::Op(ops[ops.len() - 1])))
    }
}

/// The operators that stay waiting when `op` comes, and the output with
/// those that bind at least as tightly as `op` moved to it.
pub open spec fn yielded(ops: Seq<Operator>, out: Seq<TokenView>, op: Operator) -> (
    Seq<Operator>,
    Seq<TokenView>,
)
    decreases ops.len(),
{
    if ops.len() > 0 && precedence_of(sign_of(ops[ops.len() - 1])) >= precedence_of(sign_of(op)) {
        yielded(ops.take(ops.len() - 1), out.push(TokenView::Op(ops[ops.len() - 1])), op)
    } else {
        (ops, out)
    }
}

/// The tokens from `from` on put behind `out` in the order of evaluation:
/// a number goes to the output at once, an operator waits until one comes
/// that binds no tighter.
pub open spec fn rpn_from(tokens: Seq<TokenView>, from: int, out: Seq<TokenView>, ops: Seq<Operator>) -> Seq<
    TokenView,
>
    decreases tokens.len() - from,
{
    if from < 0 || from >= tokens.len() {
        flushed(ops, out)
    } else {
        match tokens[from] {
            TokenView::Number(_) => rpn_from(tokens, from + 1, out.push(tokens[from]), ops),
            TokenView::Op(op) => {
                let (waiting, moved) = yielded(ops, out, op);
                rpn_from(tokens, from + 1, moved, waiting.push(op))
            },
        }
    }
}

/// `tokens` in the order of evaluation: every operator behind its two operands.
pub open spec fn rpn_of(tokens: Seq<TokenView>) -> Seq<TokenView> {
    rpn_from(tokens, 0, Seq::empty(), Seq::empty())
}

/// The model of a list of tokens goes token by token.
pub proof fn lemma_tokens_at(tokens: Seq<Token>, i: int)
    requires
        0 <= i < tokens.len(),
    ensures
        tokens_view(tokens).len() == tokens.len(),
        tokens_view(tokens)[i] == tokens[i]@,
    decreases tokens.len(),
{
    lemma_tokens_len(tokens);
    if i < tokens.len() - 1 {
        lemma_tokens_len(tokens.take(tokens.len() - 1));
        lemma_tokens_at(tokens.take(tokens.len() - 1), i);
    } else {
        lemma_tokens_len(tokens.take(tokens.len() - 1));
    }
}

/// A list of tokens has as many models as tokens.
pub proof fn lemma_tokens_len(tokens: Seq<Token>)
    ensures
        tokens_view(tokens).len() == tokens.len(),
    decreases tokens.len(),
{
    if tokens.len() > 0 {
        lemma_tokens_len(tokens.take(tokens.len() - 1));
    }
}

fn copy_token(t: &Token) -> (r: Token)
    ensures
        r@ == t@,
{
    match t {
        Token::Number(n) => Token::Number(n.clone()),
        Token::Op(c) => Token::Op(*c),
    }
}

/// Puts `tokens` into the order of evaluation.
pub fn to_rpn(tokens: &Vec<Token>) -> (r: Vec<Token>)
    ensures
        tokens_view(r@) == rpn_of(tokens_view(tokens@)),
{
    let ghost tv = tokens_view(tokens@);
    let mut output: Vec<Token> = Vec::new();
    let mut ops: Vec<Operator> = Vec::new();
    let mut i: usize = 0;
    while i < tokens.len()
        invariant
            i <= tokens.len(),
            tv == tokens_view(tokens@),
            rpn_of(tv) == rpn_from(tv, i as int, tokens_view(output@), ops@),
        decreases tokens.len() - i,
    {
        proof {
            lemma_tokens_at(tokens@, i as int);
        }
        match &tokens[i] {
            Token::Number(_) => {
                let copy = copy_token(&tokens[i]);
                proof {
                    lemma_tokens_push(output@, copy);
                }
                output.push(copy);
            },
            Token::Op(op) => {
                let ghost start_ops = ops@;
                let ghost start_out = tokens_view(output@);
                while ops.len() > 0 && precedence(ops[ops.len() - 1].sign()) >= precedence(op.sign())
                    invariant
                        yielded(start_ops, start_out, *op) == yielded(
                            ops@,
                            tokens_view(output@),
                            *op,
                        ),
                    decreases ops.len(),
                {
                    let ghost before = output@;
                    let ghost waiting = ops@;
                    let top = ops[ops.len() - 1];
                    let moved = Token::Op(top);
                    proof {
                        lemma_tokens_push(before, moved);
                        assert(yielded(waiting, tokens_view(before), *op) == yielded(
                            waiting.take(waiting.len() - 1),
                            tokens_view(before).push(TokenView::Op(top)),
                            *op,
                        ));
                    }
                    output.push(moved);
                    ops.pop();
                    assert(ops@ == waiting.take(waiting.len() - 1));
                }
                assert(yielded(start_ops, start_out, *op) == (ops@, tokens_view(output@)));
                assert(rpn_from(tv, i as int, start_out, start_ops) == rpn_from(
                    tv,
                    i + 1,
                    tokens_view(output@),
                    ops@.push(*op),
                ));
                ops.push(*op);
            },
        }
        i += 1;
    }
    proof {
        lemma_tokens_len(tokens@);
    }
    assert(rpn_of(tv) == flushed(ops@, tokens_view(output@)));
    while ops.len() > 0
        invariant
            rpn_of(tv) == flushed(ops@, tokens_view(output@)),
        decreases ops.len(),
    {
        let ghost before = output@;
        let ghost waiting = ops@;
        let top = ops[ops.len() - 1];
        let moved = Token::Op(top);
        proof {
            lemma_tokens_push(before, moved);
            assert(flushed(waiting, tokens_view(before)) == flushed(
                waiting.take(waiting.len() - 1),
                tokens_view(before).push(TokenView::Op(top)),
            ));
        }
        output.push(moved);
        ops.pop();
        assert(ops@ == waiting.take(waiting.len() - 1));
    }
    output
}

/// The number of items of the list that `key` stands for.
pub open spec fn length_of(scope: Scope, key: Seq<char>) -> Result<nat, MathError> {
    match resolve(scope, key) {
        Ok(Json::List(a)) => Ok(a.len()),
        Ok(_) => Err(MathError::NotAList),
        Err(_) => Err(MathError::UnknownKey),
    }
}

/// The number of items of the list that `key` stands for: the value of `length(key)`.
pub fn list_length(inserts: &Object, key: &str, ctx: &ProgramLoadContext, clock: &Clock) -> (r: Result<
    usize,
    MathError,
>)
    ensures
        match r {
            Ok(n) => length_of(scope_of(*inserts, *ctx, *clock), key@) == Ok::<nat, MathError>(
                n as nat,
            ),
            Err(e) => length_of(scope_of(*inserts, *ctx, *clock), key@) == Err::<nat, MathError>(e),
        },
{
    let k = chars_of(key);
    match resolve_chars(inserts, &k, ctx, clock) {
        Ok(Value::Array(a)) => {
            proof {
                lemma_list_view(a@);
            }
            Ok(a.len())
        },
        Ok(_) => Err(MathError::NotAList),
        Err(_) => Err(MathError::UnknownKey),
    }
}

/// Whether `inner` is a list of arithmetic: it holds nothing but what
/// numbers, operators, spaces and commas are made of.
pub open spec fn is_numeric_list(inner: Seq<char>) -> bool {
    forall|i: int|
        0 <= i < inner.len() ==> {
            let c = #[trigger] inner[i];
            c == ' ' || c == '.' || is_digit(c) || is_operator(c) || c == ','
        }
}

/// Whether every item of `a` is a number.
pub open spec fn all_numbers(a: Seq<Json>) -> bool {
    forall|i: int| 0 <= i < a.len() ==> ((#[trigger] a[i]) is Int || a[i] is Real)
}

/// The numbers that `key` stands for: those of a list that is not empty
/// and holds numbers only.
pub open spec fn numbers_of(scope: Scope, key: Seq<char>) -> Result<Seq<Json>, MathError> {
    match resolve(scope, key) {
        Ok(Json::List(a)) => if a.len() == 0 {
            Err(MathError::EmptyList)
        } else if all_numbers(a) {
            Ok(a)
        } else {
            Err(MathError::NotNumbers)
        },
        Ok(_) => Err(MathError::NotAList),
        Err(_) => Err(MathError::UnknownKey),
    }
}

/// Whether the argument `inner` of `min` or `max` is a list of arithmetic.
pub fn is_numeric_argument(inner: &str) -> (r: bool)
    ensures
        r == is_numeric_list(inner@),
{
    let c = chars_of(inner);
    let mut i: usize = 0;
    while i < c.len()
        invariant
            i <= c.len(),
            c@ == inner@,
            forall|k: int|
                0 <= k < i ==> {
                    let x = #[trigger] c@[k];
                    x == ' ' || x == '.' || is_digit(x) || is_operator(x) || x == ','
                },
        decreases c.len() - i,
    {
        let x = c[i];
        if !(x == ' ' || x == '.' || ('0' <= x && x <= '9') || x == '+' || x == '-' || x == '*' || x
            == '/' || x == '%' || x == '^' || x == ',') {
            return false;
        }
        i += 1;
    }
    true
}

/// The numbers of the list that `key` stands for: what `min(key)` and
/// `max(key)` choose from.
pub fn list_numbers(inserts: &Object, key: &str, ctx: &ProgramLoadContext, clock: &Clock) -> (r: Result<
    Vec<Value>,
    MathError,
>)
    ensures
        match r {
            Ok(a) => numbers_of(scope_of(*inserts, *ctx, *clock), key@) == Ok::<
                Seq<Json>,
                MathError,
            >(list_view(a@)),
            Err(e) => numbers_of(scope_of(*inserts, *ctx, *clock), key@) == Err::<
                Seq<Json>,
                MathError,
            >(e),
        },
{
    let k = chars_of(key);
    match resolve_chars(inserts, &k, ctx, clock) {
        Ok(Value::Array(a)) => {
            proof {
                lemma_list_view(a@);
            }
            if a.len() == 0 {
                return Err(MathError::EmptyList);
            }
            let mut i: usize = 0;
            while i < a.len()
                invariant
                    i <= a.len(),
                    a.len() > 0,
                    resolve(scope_of(*inserts, *ctx, *clock), key@) == Ok::<
                        Json,
                        crate::interp::InterpError,
                    >(Json::List(list_view(a@))),
                    list_view(a@).len() == a@.len(),
                    forall|q: int| 0 <= q < a@.len() ==> list_view(a@)[q] == a@[q]@,
                    forall|q: int|
                        0 <= q < i ==> ((#[trigger] list_view(a@)[q]) is Int || list_view(a@)[q] is Real),
                decreases a.len() - i,
            {
                if !a[i].is_number() {
                    assert(!(list_view(a@)[i as int] is Int || list_view(a@)[i as int] is Real));
                    return Err(MathError::NotNumbers);
                }
                i += 1;
            }
            Ok(a)
        },
        Ok(_) => Err(MathError::NotAList),
        Err(_) => Err(MathError::UnknownKey),
    }
}

} // verus!
