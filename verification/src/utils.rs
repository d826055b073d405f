use vstd::prelude::*;

use crate::text::push_char;

verus! {

/// A binary arithmetic operator of a formula.
#[derive(Debug, Clone, Copy, PartialEq, Eq, Structural)]
pub enum Operator {
    Add,
    Subtract,
    Multiply,
    Divide,
}

pub open spec fn spec_precedence(op: Operator) -> u8 {
    match op {
        Operator::Add | Operator::Subtract => 1,
        Operator::Multiply | Operator::Divide => 2,
    }
}

impl Operator {
    /// Binding strength: multiplication and division bind tighter than
    /// addition and subtraction.
    pub fn precedence(&self) -> (p: u8)
        ensures
            p == spec_precedence(*self),
    {
        match self {
            Operator::Add | Operator::Subtract => 1,
            Operator::Multiply | Operator::Divide => 2,
        }
    }
}

/// A lexical token of a formula; a number is kept as its text.
#[derive(Debug, Clone)]
pub enum Token {
    Number(String),
    Operator(Operator),
    LeftParen,
    RightParen,
}

/// A token with its number text as a character sequence.
pub enum TokenView {
    Number(Seq<char>),
    Operator(Operator),
    LeftParen,
    RightParen,
}

impl View for Token {
    type V = TokenView;

    open spec fn view(&self) -> TokenView {
        match self {
            Token::Number(s) => TokenView::Number(s@),
            Token::Operator(op) => TokenView::Operator(*op),
            Token::LeftParen => TokenView::LeftParen,
            Token::RightParen => TokenView::RightParen,
        }
    }
}

pub open spec fn tokens_view(tokens: Seq<Token>) -> Seq<TokenView> {
    tokens.map_values(|t: Token| t@)
}

/// Characters that make up numbers.
pub open spec fn is_number_char(c: char) -> bool {
    ('0' <= c <= '9') || c == '.'
}

/// The token a single-character operator or parenthesis stands for.
pub open spec fn symbol_token(c: char) -> Option<TokenView> {
    if c == '+' {
        Some(TokenView::Operator(Operator::Add))
    } else if c == '-' {
        Some(TokenView::Operator(Operator::Subtract))
    } else if c == '*' {
        Some(TokenView::Operator(Operator::Multiply))
    } else if c == '/' {
        Some(TokenView::Operator(Operator::Divide))
    } else if c == '(' {
        Some(TokenView::LeftParen)
    } else if c == ')' {
        Some(TokenView::RightParen)
    } else {
        None
    }
}

/// A formula may hold digits, dots, the four operators, parentheses and
/// spaces.
pub open spec fn is_formula_char(c: char) -> bool {
    is_number_char(c) || symbol_token(c) is Some || c == ' '
}

/// Emit the pending number, if any.
pub open spec fn flush_number(tokens: Seq<TokenView>, number: Seq<char>) -> Seq<TokenView> {
    if number.len() == 0 {
        tokens
    } else {
        tokens.push(TokenView::Number(number))
    }
}

/// Tokens emitted and the number being read, after some characters.
pub open spec fn lex_state(s: Seq<char>) -> (Seq<TokenView>, Seq<char>)
    decreases s.len(),
{
    if s.len() == 0 {
        (Seq::empty(), Seq::empty())
    } else {
        let (tokens, number) = lex_state(s.drop_last());
        let c = s.last();
        if is_number_char(c) {
            (tokens, number.push(c))
        } else if symbol_token(c) is Some {
            (flush_number(tokens, number).push(symbol_token(c).unwrap()), Seq::empty())
        } else {
            (flush_number(tokens, number), Seq::empty())
        }
    }
}

/// The tokens of a formula: runs of digits and dots become numbers,
/// operators and parentheses become their tokens, spaces separate.
pub open spec fn lex(s: Seq<char>) -> Seq<TokenView> {
    flush_number(lex_state(s).0, lex_state(s).1)
}

fn flush(tokens: &mut Vec<Token>, number: &mut String)
    ensures
        tokens_view(final(tokens)@) == flush_number(tokens_view(old(tokens)@), old(number)@),
        final(number)@ == Seq::<char>::empty(),
{
    if number.as_str().unicode_len() > 0 {
        let text = number.clone();
        tokens.push(Token::Number(text));
        proof {
            assert(tokens_view(tokens@) =~= tokens_view(old(tokens)@).push(
                TokenView::Number(old(number)@),
            ));
        }
    }
    *number = String::new();
}

/// Split a formula into tokens.
pub fn tokenize(formula: &str) -> (tokens: Vec<Token>)
    requires
        forall|k: int| 0 <= k < formula@.len() ==> is_formula_char(#[trigger] formula@[k]),
    ensures
        tokens_view(tokens@) == lex(formula@),
{
    let n = formula.unicode_len();
    let mut tokens: Vec<Token> = Vec::new();
    let mut number = String::new();
    let mut i: usize = 0;
    proof {
        assert(formula@.take(0) =~= Seq::<char>::empty());
        assert(tokens_view(tokens@) =~= Seq::<TokenView>::empty());
    }
    while i < n
        invariant
            n == formula@.len(),
            0 <= i <= n,
            forall|k: int| 0 <= k < formula@.len() ==> is_formula_char(#[trigger] formula@[k]),
            (tokens_view(tokens@), number@) == lex_state(formula@.take(i as int)),
        decreases n - i,
    {
        let c = formula.get_char(i);
        proof {
            assert(formula@.take(i + 1).drop_last() =~= formula@.take(i as int));
            assert(formula@.take(i + 1).last() == c);
            assert(is_formula_char(formula@[i as int]));
        }
        if ('0' <= c && c <= '9') || c == '.' {
            push_char(&mut number, c);
        } else if c == '+' || c == '-' || c == '*' || c == '/' || c == '(' || c == ')' {
            flush(&mut tokens, &mut number);
            let tok = if c == '+' {
                Token::Operator(Operator::Add)
            } else if c == '-' {
                Token::Operator(Operator::Subtract)
            } else if c == '*' {
                Token::Operator(Operator::Multiply)
            } else if c == '/' {
                Token::Operator(Operator::Divide)
            } else if c == '(' {
                Token::LeftParen
            } else {
                Token::RightParen
            };
            let ghost before = tokens@;
            tokens.push(tok);
            proof {
                assert(tokens_view(tokens@) =~= tokens_view(before).push(symbol_token(c).unwrap()));
            }
        } else {
            flush(&mut tokens, &mut number);
        }
        i = i + 1;
    }
    flush(&mut tokens, &mut number);
    proof {
        assert(formula@.take(n as int) =~= formula@);
    }
    tokens
}

/// Send a popped operator to the output; a popped parenthesis is dropped.
pub open spec fn emit(out: Seq<TokenView>, t: TokenView) -> Seq<TokenView> {
    match t {
        TokenView::Operator(_) => out.push(t),
        _ => out,
    }
}

/// At `)`: pop operators to the output down to the matching `(`, which is
/// discarded (or until the stack is empty).
pub open spec fn close_paren(out: Seq<TokenView>, ops: Seq<TokenView>) -> (Seq<TokenView>, Seq<
    TokenView,
>)
    decreases ops.len(),
{
    if ops.len() == 0 {
        (out, ops)
    } else if ops.last() is LeftParen {
        (out, ops.drop_last())
    } else {
        close_paren(emit(out, ops.last()), ops.drop_last())
    }
}

/// `t` is an operator that binds at least as tightly as `op`.
pub open spec fn top_binds_tighter(t: TokenView, op: Operator) -> bool {
    match t {
        TokenView::Operator(top) => spec_precedence(op) <= spec_precedence(top),
        _ => false,
    }
}

/// Before pushing `op`: pop to the output every operator on top of the stack
/// that binds at least as tightly.
pub open spec fn pop_tighter(out: Seq<TokenView>, ops: Seq<TokenView>, op: Operator) -> (Seq<
    TokenView,
>, Seq<TokenView>)
    decreases ops.len(),
{
    if ops.len() > 0 && top_binds_tighter(ops.last(), op) {
        pop_tighter(out.push(ops.last()), ops.drop_last(), op)
    } else {
        (out, ops)
    }
}

/// At the end: pop the whole stack to the output, dropping parentheses.
pub open spec fn drain(out: Seq<TokenView>, ops: Seq<TokenView>) -> Seq<TokenView>
    decreases ops.len(),
{
    if ops.len() == 0 {
        out
    } else {
        drain(emit(out, ops.last()), ops.drop_last())
    }
}

/// The shunting-yard state (output, operator stack) after some tokens.
pub open spec fn shunt_state(tokens: Seq<TokenView>) -> (Seq<TokenView>, Seq<TokenView>)
    decreases tokens.len(),
{
    if tokens.len() == 0 {
        (Seq::empty(), Seq::empty())
    } else {
        let (out, ops) = shunt_state(tokens.drop_last());
        match tokens.last() {
            TokenView::Number(n) => (out.push(TokenView::Number(n)), ops),
            TokenView::LeftParen => (out, ops.push(TokenView::LeftParen)),
            TokenView::RightParen => close_paren(out, ops),
            TokenView::Operator(op) => {
                let (out2, ops2) = pop_tighter(out, ops, op);
                (out2, ops2.push(TokenView::Operator(op)))
            },
        }
    }
}

/// The formula in postfix order (shunting-yard): numbers, and each operator
/// at the point where it is applied to the two values before it.
pub open spec fn postfix(tokens: Seq<TokenView>) -> Seq<TokenView> {
    drain(shunt_state(tokens).0, shunt_state(tokens).1)
}

/// Reorder the tokens of a formula into postfix order, honouring operator
/// precedence, left associativity and parentheses. Evaluating the result on
/// a stack applies the operators in the order the formula means.
pub fn to_postfix(tokens: Vec<Token>) -> (out: Vec<Token>)
    ensures
        tokens_view(out@) == postfix(tokens_view(tokens@)),
{
    let ghost tv = tokens_view(tokens@);
    let mut output: Vec<Token> = Vec::new();
    let mut operators: Vec<Token> = Vec::new();
    let mut i: usize = 0;
    proof {
        assert(tv.take(0) =~= Seq::<TokenView>::empty());
        assert(tokens_view(output@) =~= Seq::<TokenView>::empty());
    }
    while i < tokens.len()
        invariant
            0 <= i <= tokens@.len(),
            tv == tokens_view(tokens@),
            (tokens_view(output@), tokens_view(operators@)) == shunt_state(tv.take(i as int)),
        decreases tokens@.len() - i,
    {
        let token = &tokens[i];
        proof {
            assert(tv.take(i + 1).drop_last() =~= tv.take(i as int));
            assert(tv.take(i + 1).last() == tokens@[i as int]@);
        }
        match token {
            Token::Number(n) => {
                let ghost before = output@;
                let text = n.clone();
                output.push(Token::Number(text));
                proof {
                    assert(tokens@[i as int]@ == TokenView::Number(n@));
                    assert(tokens_view(output@) =~= tokens_view(before).push(TokenView::Number(n@)));
                }
            },
            Token::LeftParen => {
                let ghost before = operators@;
                operators.push(Token::LeftParen);
                proof {
                    assert(tokens_view(operators@) =~= tokens_view(before).push(TokenView::LeftParen));
                }
            },
            Token::RightParen => {
                loop
                    invariant_except_break
                        close_paren(tokens_view(output@), tokens_view(operators@)) == shunt_state(
                            tv.take(i + 1),
                        ),
                    ensures
                        (tokens_view(output@), tokens_view(operators@)) == shunt_state(
                            tv.take(i + 1),
                        ),
                    decreases operators@.len(),
                {
                    let ghost ops_before = operators@;
                    let ghost out_before = output@;
                    match operators.pop() {
                        None => {
                            break;
                        },
                        Some(top) => {
                            proof {
                                assert(tokens_view(operators@) =~= tokens_view(ops_before).drop_last());
                                assert(tokens_view(ops_before).last() == top@);
                            }
                            match top {
                                Token::LeftParen => {
                                    break;
                                },
                                Token::Operator(op) => {
                                    output.push(Token::Operator(op));
                                    proof {
                                        assert(tokens_view(output@) =~= tokens_view(out_before).push(
                                            top@,
                                        ));
                                    }
                                },
                                _ => {
                                    proof {
                                        assert(emit(tokens_view(out_before), top@) == tokens_view(
                                            out_before,
                                        ));
                                    }
                                },
                            }
                        },
                    }
                }
            },
            Token::Operator(op) => {
                let op = *op;
                loop
                    invariant
                        pop_tighter(tokens_view(output@), tokens_view(operators@), op)
                            == pop_tighter(
                            shunt_state(tv.take(i as int)).0,
                            shunt_state(tv.take(i as int)).1,
                            op,
                        ),
                    ensures
                        (tokens_view(output@), tokens_view(operators@)) == pop_tighter(
                            shunt_state(tv.take(i as int)).0,
                            shunt_state(tv.take(i as int)).1,
                            op,
                        ),
                    decreases operators@.len(),
                {
                    let n_ops = operators.len();
                    if n_ops == 0 {
                        break;
                    }
                    let tighter = match &operators[n_ops - 1] {
                        Token::Operator(top) => op.precedence() <= top.precedence(),
                        _ => false,
                    };
                    proof {
                        assert(tokens_view(operators@).last() == operators@[n_ops - 1]@);
                    }
                    if !tighter {
                        break;
                    }
                    let ghost ops_before = operators@;
                    let ghost out_before = output@;
                    let top = operators.pop().unwrap();
                    proof {
                        assert(tokens_view(operators@) =~= tokens_view(ops_before).drop_last());
                        assert(tokens_view(ops_before).last() == top@);
                    }
                    output.push(top);
                    proof {
                        assert(tokens_view(output@) =~= tokens_view(out_before).push(top@));
                    }
                }
                let ghost before = operators@;
                operators.push(Token::Operator(op));
                proof {
                    assert(tokens_view(operators@) =~= tokens_view(before).push(
                        TokenView::Operator(op),
                    ));
                }
            },
        }
        i = i + 1;
    }
    proof {
        assert(tv.take(i as int) =~= tv);
    }
    loop
        invariant
            drain(tokens_view(output@), tokens_view(operators@)) == postfix(tv),
            tv == tokens_view(tokens@),
        ensures
            tokens_view(output@) == postfix(tv),
        decreases operators@.len(),
    {
        let ghost ops_before = operators@;
        let ghost out_before = output@;
        match operators.pop() {
            None => {
                break;
            },
            Some(top) => {
                proof {
                    assert(tokens_view(operators@) =~= tokens_view(ops_before).drop_last());
                    assert(tokens_view(ops_before).last() == top@);
                }
                match top {
                    Token::Operator(op) => {
                        output.push(Token::Operator(op));
                        proof {
                            assert(tokens_view(output@) =~= tokens_view(out_before).push(top@));
                        }
                    },
                    _ => {},
                }
            },
        }
    }
    output
}

/// A formula as a tree: a number, or an operator applied to two formulas.
pub enum FormulaTree {
    Num(Seq<char>),
    Apply(Operator, Box<FormulaTree>, Box<FormulaTree>),
}

/// Run a postfix token sequence on a stack of trees: a number is pushed; an
/// operator pops its right then its left operand and pushes their
/// application. `None` when an operator lacks operands or a parenthesis is
/// met.
pub open spec fn run_postfix(out: Seq<TokenView>) -> Option<Seq<FormulaTree>>
    decreases out.len(),
{
    if out.len() == 0 {
        Some(Seq::empty())
    } else {
        match run_postfix(out.drop_last()) {
            None => None,
            Some(st) => match out.last() {
                TokenView::Number(n) => Some(st.push(FormulaTree::Num(n))),
                TokenView::Operator(op) => if st.len() >= 2 {
                    Some(
                        st.drop_last().drop_last().push(
                            FormulaTree::Apply(op, Box::new(st[st.len() - 2]), Box::new(st.last())),
                        ),
                    )
                } else {
                    None
                },
                _ => None,
            },
        }
    }
}

/// A formula without parentheses: numbers at the even positions and
/// operators between them.
pub open spec fn flat_formula(t: Seq<TokenView>) -> bool {
    &&& t.len() % 2 == 1
    &&& forall|i: int| 0 <= i < t.len() ==> (i % 2 == 0 ==> #[trigger] t[i] is Number) && (i % 2 == 1
        ==> t[i] is Operator)
}

pub open spec fn is_mul_op(op: Operator) -> bool {
    op is Multiply || op is Divide
}

/// The parts of a flat formula read left to right: the sum so far with the
/// additive operator waiting for the next term (none before the first `+` or
/// `-`), and the term being built. A multiplicative operator extends the
/// term; an additive one closes it into the sum.
pub open spec fn infix_parts(t: Seq<TokenView>) -> (Option<(FormulaTree, Operator)>, FormulaTree)
    decreases t.len(),
{
    if t.len() < 3 {
        (None, FormulaTree::Num(t[0]->Number_0))
    } else {
        let (sum, term) = infix_parts(t.take(t.len() - 2));
        let op = t[t.len() - 2]->Operator_0;
        let n = FormulaTree::Num(t.last()->Number_0);
        if is_mul_op(op) {
            (sum, FormulaTree::Apply(op, Box::new(term), Box::new(n)))
        } else {
            (Some((close_sum(sum, term), op)), n)
        }
    }
}

/// The sum so far with the term added in.
pub open spec fn close_sum(sum: Option<(FormulaTree, Operator)>, term: FormulaTree) -> FormulaTree {
    match sum {
        None => term,
        Some((s, a)) => FormulaTree::Apply(a, Box::new(s), Box::new(term)),
    }
}

/// The meaning of a flat formula: `*` and `/` bind tighter than `+` and `-`,
/// and operators of the same strength apply left to right.
pub open spec fn infix_tree(t: Seq<TokenView>) -> FormulaTree {
    close_sum(infix_parts(t).0, infix_parts(t).1)
}

/// What the shunting-yard state holds after a flat formula, in terms of its
/// parts: the operator stack is empty, one operator or an additive under a
/// multiplicative one, and running the output gives the operands those
/// operators are still waiting to combine.
spec fn shunt_matches(out: Seq<TokenView>, ops: Seq<TokenView>, sum: Option<(FormulaTree, Operator)>, term: FormulaTree) -> bool {
    if ops.len() == 0 {
        sum is None && run_postfix(out) == Some(seq![term])
    } else if ops.len() == 1 {
        &&& ops[0] is Operator
        &&& if is_mul_op(ops[0]->Operator_0) {
            &&& sum is None
            &&& term is Apply
            &&& term->Apply_0 == ops[0]->Operator_0
            &&& run_postfix(out) == Some(seq![*term->Apply_1, *term->Apply_2])
        } else {
            &&& sum is Some
            &&& sum->Some_0.1 == ops[0]->Operator_0
            &&& run_postfix(out) == Some(seq![sum->Some_0.0, term])
        }
    } else if ops.len() == 2 {
        &&& ops[0] is Operator
        &&& ops[1] is Operator
        &&& !is_mul_op(ops[0]->Operator_0)
        &&& is_mul_op(ops[1]->Operator_0)
        &&& sum is Some
        &&& sum->Some_0.1 == ops[0]->Operator_0
        &&& term is Apply
        &&& term->Apply_0 == ops[1]->Operator_0
        &&& run_postfix(out) == Some(seq![sum->Some_0.0, *term->Apply_1, *term->Apply_2])
    } else {
        false
    }
}

proof fn lemma_run_push(out: Seq<TokenView>, x: TokenView)
    ensures
        run_postfix(out.push(x)) == match run_postfix(out) {
            None => None,
            Some(st) => match x {
                TokenView::Number(n) => Some(st.push(FormulaTree::Num(n))),
                TokenView::Operator(op) => if st.len() >= 2 {
                    Some(
                        st.drop_last().drop_last().push(
                            FormulaTree::Apply(op, Box::new(st[st.len() - 2]), Box::new(st.last())),
                        ),
                    )
                } else {
                    None
                },
                _ => None,
            },
        },
{
    assert(out.push(x).drop_last() =~= out);
}

proof fn lemma_shunt_matches(t: Seq<TokenView>)
    requires
        flat_formula(t),
    ensures
        shunt_matches(shunt_state(t).0, shunt_state(t).1, infix_parts(t).0, infix_parts(t).1),
    decreases t.len(),
{
    if t.len() < 3 {
        assert(t.len() == 1);
        assert(t[0] is Number);
        assert(t.drop_last() =~= Seq::<TokenView>::empty());
        lemma_run_push(Seq::empty(), t[0]);
        assert(Seq::<TokenView>::empty().push(t[0]) =~= seq![t[0]]);
        assert(shunt_state(t.drop_last()) == (Seq::<TokenView>::empty(), Seq::<TokenView>::empty()));
        assert(shunt_state(t).1.len() == 0);
        assert(run_postfix(shunt_state(t).0) == Some(seq![infix_parts(t).1]));
    } else {
        let u = t.take(t.len() - 2);
        assert(flat_formula(u)) by {
            assert forall|i: int| 0 <= i < u.len() implies (i % 2 == 0 ==> #[trigger] u[i] is Number) && (i
                % 2 == 1 ==> u[i] is Operator) by {
                assert(u[i] == t[i]);
            }
        }
        lemma_shunt_matches(u);
        let (out, ops) = shunt_state(u);
        let (sum, term) = infix_parts(u);
        assert(t[t.len() - 2] is Operator);
        assert(t[t.len() - 1] is Number);
        let op = t[t.len() - 2]->Operator_0;
        let nt = t.last();
        let n = nt->Number_0;
        let w = t.drop_last();
        assert(w.drop_last() =~= u);
        assert(w.last() == TokenView::Operator(op));
        let (out2, ops2) = pop_tighter(out, ops, op);
        assert(shunt_state(w) == (out2, ops2.push(TokenView::Operator(op))));
        assert(shunt_state(t) == (out2.push(nt), ops2.push(TokenView::Operator(op))));
        lemma_run_push(out2, nt);
        let num = FormulaTree::Num(n);
        assert(infix_parts(t) == if is_mul_op(op) {
            (sum, FormulaTree::Apply(op, Box::new(term), Box::new(num)))
        } else {
            (Some((close_sum(sum, term), op)), num)
        });
        if is_mul_op(op) {
            if ops.len() == 0 {
                assert(out2 == out && ops2 == ops);
                assert(seq![term].push(num) =~= seq![term, num]);
            } else if ops.len() == 1 {
                if is_mul_op(ops[0]->Operator_0) {
                    let o = ops[0]->Operator_0;
                    assert(ops.drop_last() =~= Seq::<TokenView>::empty());
                    assert(ops.last() == ops[0]);
                    assert(top_binds_tighter(ops[0], op));
                    assert(pop_tighter(out.push(ops[0]), ops.drop_last(), op) == (out.push(ops[0]), ops.drop_last()));
                    assert(out2 == out.push(ops[0]) && ops2 == ops.drop_last());
                    lemma_run_push(out, ops[0]);
                    let st = run_postfix(out)->Some_0;
                    assert(st.drop_last().drop_last() =~= Seq::<FormulaTree>::empty());
                    assert(run_postfix(out2) == Some(seq![term]));
                    assert(seq![term].push(num) =~= seq![term, num]);
                } else {
                    assert(out2 == out && ops2 == ops);
                    let st = run_postfix(out)->Some_0;
                    assert(st.push(num) =~= seq![sum->Some_0.0, term, num]);
                }
            } else {
                let o = ops[1]->Operator_0;
                assert(ops.drop_last() =~= seq![ops[0]]);
                assert(ops.drop_last().last() == ops[0]);
                assert(ops.last() == ops[1]);
                assert(top_binds_tighter(ops[1], op));
                assert(!top_binds_tighter(ops[0], op));
                assert(pop_tighter(out.push(ops[1]), ops.drop_last(), op) == (out.push(ops[1]), ops.drop_last()));
                assert(out2 == out.push(ops[1]) && ops2 == ops.drop_last());
                lemma_run_push(out, ops[1]);
                let st = run_postfix(out)->Some_0;
                assert(st.drop_last().drop_last() =~= seq![sum->Some_0.0]);
                assert(run_postfix(out2) == Some(seq![sum->Some_0.0, term]));
                assert(seq![sum->Some_0.0, term].push(num) =~= seq![sum->Some_0.0, term, num]);
                assert(ops2.push(TokenView::Operator(op)) =~= seq![ops[0], TokenView::Operator(op)]);
            }
        } else {
            let c = close_sum(sum, term);
            if ops.len() == 0 {
                assert(out2 == out && ops2 == ops);
                assert(seq![term].push(num) =~= seq![term, num]);
            } else if ops.len() == 1 {
                assert(ops.drop_last() =~= Seq::<TokenView>::empty());
                assert(ops.last() == ops[0]);
                assert(top_binds_tighter(ops[0], op));
                assert(pop_tighter(out.push(ops[0]), ops.drop_last(), op) == (out.push(ops[0]), ops.drop_last()));
                assert(out2 == out.push(ops[0]) && ops2 == ops.drop_last());
                lemma_run_push(out, ops[0]);
                let st = run_postfix(out)->Some_0;
                assert(st.drop_last().drop_last() =~= Seq::<FormulaTree>::empty());
                assert(run_postfix(out2) == Some(seq![c]));
                assert(seq![c].push(num) =~= seq![c, num]);
            } else {
                let s = sum->Some_0.0;
                let p1 = out.push(ops[1]);
                assert(ops.drop_last() =~= seq![ops[0]]);
                assert(ops.drop_last().drop_last() =~= Seq::<TokenView>::empty());
                assert(ops.last() == ops[1]);
                assert(ops.drop_last().last() == ops[0]);
                assert(top_binds_tighter(ops[1], op));
                assert(top_binds_tighter(ops[0], op));
                assert(pop_tighter(p1.push(ops[0]), ops.drop_last().drop_last(), op) == (p1.push(ops[0]), ops.drop_last().drop_last()));
                assert(pop_tighter(out, ops, op) == pop_tighter(p1, ops.drop_last(), op));
                assert(pop_tighter(p1, ops.drop_last(), op) == pop_tighter(
                    p1.push(ops[0]),
                    ops.drop_last().drop_last(),
                    op,
                ));
                assert(out2 == p1.push(ops[0]) && ops2 == ops.drop_last().drop_last());
                lemma_run_push(out, ops[1]);
                let st = run_postfix(out)->Some_0;
                assert(st.drop_last().drop_last() =~= seq![s]);
                assert(run_postfix(p1) == Some(seq![s, term]));
                lemma_run_push(p1, ops[0]);
                let st1 = seq![s, term];
                assert(st1.drop_last().drop_last() =~= Seq::<FormulaTree>::empty());
                assert(run_postfix(out2) == Some(seq![c]));
                assert(seq![c].push(num) =~= seq![c, num]);
            }
        }
    }
}

/// Law: the postfix order of a formula without parentheses, run on a stack,
/// builds exactly the formula's meaning: `*` and `/` bind tighter than `+`
/// and `-`, and operators of equal strength, whichever they are, apply left
/// to right (so `8-3+2` is `(8-3)+2` and `8/4*2` is `(8/4)*2`).
pub proof fn lemma_postfix_means_formula(t: Seq<TokenView>)
    requires
        flat_formula(t),
    ensures
        run_postfix(postfix(t)) == Some(seq![infix_tree(t)]),
{
    lemma_shunt_matches(t);
    let (out, ops) = shunt_state(t);
    let (sum, term) = infix_parts(t);
    if ops.len() == 0 {
        assert(drain(out, ops) == out);
    } else if ops.len() == 1 {
        assert(ops.drop_last() =~= Seq::<TokenView>::empty());
        assert(ops.last() == ops[0]);
        assert(drain(out.push(ops[0]), ops.drop_last()) == out.push(ops[0]));
        assert(drain(out, ops) == out.push(ops[0]));
        lemma_run_push(out, ops[0]);
        let st = run_postfix(out)->Some_0;
        assert(st.drop_last().drop_last() =~= Seq::<FormulaTree>::empty());
    } else {
        let p1 = out.push(ops[1]);
        assert(ops.drop_last() =~= seq![ops[0]]);
        assert(ops.drop_last().drop_last() =~= Seq::<TokenView>::empty());
        assert(ops.last() == ops[1]);
        assert(ops.drop_last().last() == ops[0]);
        assert(drain(p1.push(ops[0]), ops.drop_last().drop_last()) == p1.push(ops[0]));
        assert(drain(out, ops) == drain(p1, ops.drop_last()));
        assert(drain(p1, ops.drop_last()) == drain(p1.push(ops[0]), ops.drop_last().drop_last()));
        lemma_run_push(out, ops[1]);
        let st = run_postfix(out)->Some_0;
        let s = sum->Some_0.0;
        assert(st.drop_last().drop_last() =~= seq![s]);
        assert(run_postfix(p1) == Some(seq![s, term]));
        lemma_run_push(p1, ops[0]);
        assert(seq![s, term].drop_last().drop_last() =~= Seq::<FormulaTree>::empty());
    }
}

/// Every entry is an operator.
spec fn all_operators(ops: Seq<TokenView>) -> bool {
    forall|i: int| 0 <= i < ops.len() ==> #[trigger] ops[i] is Operator
}

proof fn lemma_pop_tighter_under_paren(out: Seq<TokenView>, ops: Seq<TokenView>, op: Operator)
    requires
        all_operators(ops),
    ensures
        pop_tighter(out, seq![TokenView::LeftParen] + ops, op) == (
            pop_tighter(out, ops, op).0,
            seq![TokenView::LeftParen] + pop_tighter(out, ops, op).1,
        ),
    decreases ops.len(),
{
    let lp = seq![TokenView::LeftParen];
    let w = lp + ops;
    if ops.len() == 0 {
        assert(w =~= lp);
        assert(w.last() == TokenView::LeftParen);
    } else {
        assert(w.last() == ops.last());
        assert(w.drop_last() =~= lp + ops.drop_last());
        if top_binds_tighter(ops.last(), op) {
            assert(all_operators(ops.drop_last())) by {
                assert forall|i: int| 0 <= i < ops.drop_last().len() implies #[trigger] ops.drop_last()[i] is Operator by {
                    assert(ops.drop_last()[i] == ops[i]);
                }
            }
            lemma_pop_tighter_under_paren(out.push(ops.last()), ops.drop_last(), op);
        }
    }
}

proof fn lemma_close_paren_over_operators(out: Seq<TokenView>, ops: Seq<TokenView>)
    requires
        all_operators(ops),
    ensures
        close_paren(out, seq![TokenView::LeftParen] + ops) == (drain(out, ops), Seq::<TokenView>::empty()),
    decreases ops.len(),
{
    let lp = seq![TokenView::LeftParen];
    let w = lp + ops;
    if ops.len() == 0 {
        assert(w =~= lp);
        assert(w.drop_last() =~= Seq::<TokenView>::empty());
    } else {
        assert(w.last() == ops.last());
        assert(ops.last() is Operator);
        assert(w.drop_last() =~= lp + ops.drop_last());
        assert(all_operators(ops.drop_last())) by {
            assert forall|i: int| 0 <= i < ops.drop_last().len() implies #[trigger] ops.drop_last()[i] is Operator by {
                assert(ops.drop_last()[i] == ops[i]);
            }
        }
        lemma_close_paren_over_operators(emit(out, ops.last()), ops.drop_last());
    }
}

proof fn lemma_shunt_after_paren(t: Seq<TokenView>)
    requires
        flat_formula(t),
    ensures
        shunt_state(seq![TokenView::LeftParen] + t) == (
            shunt_state(t).0,
            seq![TokenView::LeftParen] + shunt_state(t).1,
        ),
        all_operators(shunt_state(t).1),
    decreases t.len(),
{
    let lp = seq![TokenView::LeftParen];
    lemma_shunt_matches(t);
    let ops_t = shunt_state(t).1;
    assert(all_operators(ops_t)) by {
        assert forall|i: int| 0 <= i < ops_t.len() implies #[trigger] ops_t[i] is Operator by {}
    }
    if t.len() < 3 {
        assert(t.len() == 1);
        let w = lp + t;
        assert(w.drop_last() =~= lp);
        assert(lp.drop_last() =~= Seq::<TokenView>::empty());
        assert(lp.last() == TokenView::LeftParen);
        assert(shunt_state(Seq::<TokenView>::empty()) == (Seq::<TokenView>::empty(), Seq::<TokenView>::empty()));
        assert(Seq::<TokenView>::empty().push(TokenView::LeftParen) =~= lp);
        assert(shunt_state(lp) == (Seq::<TokenView>::empty(), lp));
        assert(t.drop_last() =~= Seq::<TokenView>::empty());
        assert(w.last() == t[0]);
        assert(t.last() == t[0]);
        assert(lp + Seq::<TokenView>::empty() =~= lp);
        assert(t[0] is Number);
        assert(shunt_state(t) == (Seq::<TokenView>::empty().push(t[0]), Seq::<TokenView>::empty()));
        assert(shunt_state(w) == (Seq::<TokenView>::empty().push(t[0]), lp));
    } else {
        let u = t.take(t.len() - 2);
        assert(flat_formula(u)) by {
            assert forall|i: int| 0 <= i < u.len() implies (i % 2 == 0 ==> #[trigger] u[i] is Number) && (i
                % 2 == 1 ==> u[i] is Operator) by {
                assert(u[i] == t[i]);
            }
        }
        lemma_shunt_after_paren(u);
        let w = lp + t;
        let wt = t.drop_last();
        assert(w.drop_last() =~= lp + wt);
        assert((lp + wt).drop_last() =~= lp + u);
        assert(wt.drop_last() =~= u);
        assert(w.last() == t.last());
        assert((lp + wt).last() == wt.last());
        assert(t[t.len() - 2] is Operator);
        let op = t[t.len() - 2]->Operator_0;
        assert(wt.last() == TokenView::Operator(op));
        let (out, ops) = shunt_state(u);
        lemma_pop_tighter_under_paren(out, ops, op);
        let (out2, ops2) = pop_tighter(out, ops, op);
        assert(shunt_state(lp + wt) == (out2, lp + ops2.push(TokenView::Operator(op)))) by {
            assert((lp + ops2).push(TokenView::Operator(op)) =~= lp + ops2.push(TokenView::Operator(op)));
        }
        assert(t[t.len() - 1] is Number);
        assert(shunt_state(wt) == (out2, ops2.push(TokenView::Operator(op))));
        assert(shunt_state(t) == (out2.push(t.last()), ops2.push(TokenView::Operator(op))));
        assert(shunt_state(w) == (out2.push(t.last()), lp + ops2.push(TokenView::Operator(op))));
    }
}

/// Law: wrapping a formula without parentheses in a pair of parentheses
/// leaves its postfix order unchanged: the parentheses only group, and are
/// dropped.
pub proof fn lemma_postfix_parenthesized(t: Seq<TokenView>)
    requires
        flat_formula(t),
    ensures
        postfix(seq![TokenView::LeftParen] + t + seq![TokenView::RightParen]) == postfix(t),
{
    let lp = seq![TokenView::LeftParen];
    let w = lp + t + seq![TokenView::RightParen];
    lemma_shunt_after_paren(t);
    assert(w.drop_last() =~= lp + t);
    assert(w.last() == TokenView::RightParen);
    let (out, ops) = shunt_state(t);
    lemma_close_paren_over_operators(out, ops);
    assert(shunt_state(w) == (drain(out, ops), Seq::<TokenView>::empty()));
}

} // verus!
