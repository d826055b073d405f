use system_solver::utils::{tokenize, to_postfix, Operator, Token};

fn render(tokens: &[Token]) -> Vec<String> {
    tokens
        .iter()
        .map(|t| match t {
            Token::Number(n) => n.clone(),
            Token::Operator(Operator::Add) => "+".to_string(),
            Token::Operator(Operator::Subtract) => "-".to_string(),
            Token::Operator(Operator::Multiply) => "*".to_string(),
            Token::Operator(Operator::Divide) => "/".to_string(),
            Token::LeftParen => "(".to_string(),
            Token::RightParen => ")".to_string(),
        })
        .collect()
}

#[test]
fn tokenize_splits_numbers_operators_and_parentheses() {
    assert_eq!(
        render(&tokenize("12.5*(3 + 4)/2")),
        vec!["12.5", "*", "(", "3", "+", "4", ")", "/", "2"]
    );
    assert_eq!(render(&tokenize("1 2")), vec!["1", "2"]);
    assert!(tokenize("").is_empty());
    assert!(tokenize("   ").is_empty());
}

#[test]
fn postfix_respects_precedence_and_left_associativity() {
    assert_eq!(render(&to_postfix(tokenize("2+3*4"))), vec!["2", "3", "4", "*", "+"]);
    assert_eq!(render(&to_postfix(tokenize("2*3+4"))), vec!["2", "3", "*", "4", "+"]);
    assert_eq!(render(&to_postfix(tokenize("8-3-2"))), vec!["8", "3", "-", "2", "-"]);
    assert_eq!(render(&to_postfix(tokenize("8/4/2"))), vec!["8", "4", "/", "2", "/"]);
}

#[test]
fn postfix_honours_and_drops_parentheses() {
    assert_eq!(render(&to_postfix(tokenize("(2+3)*4"))), vec!["2", "3", "+", "4", "*"]);
    assert_eq!(render(&to_postfix(tokenize("2*(3+4"))), vec!["2", "3", "4", "+", "*"]);
    assert_eq!(render(&to_postfix(tokenize("2+3)*4"))), vec!["2", "3", "+", "4", "*"]);
}

#[test]
fn operator_precedence_levels() {
    assert_eq!(Operator::Add.precedence(), 1);
    assert_eq!(Operator::Subtract.precedence(), 1);
    assert_eq!(Operator::Multiply.precedence(), 2);
    assert_eq!(Operator::Divide.precedence(), 2);
}
