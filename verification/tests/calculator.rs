use carokia::calculator::{tokenize, MathToken};

fn chars(s: &str) -> Vec<char> {
    s.chars().collect()
}

#[test]
fn tokenize_expression() {
    let (tokens, stop) = tokenize(&chars("2 + 3.5*(10 -\t4)/x"));
    assert_eq!(
        tokens,
        vec![
            MathToken::Number("2".to_string()),
            MathToken::Plus,
            MathToken::Number("3.5".to_string()),
            MathToken::Star,
            MathToken::LParen,
            MathToken::Number("10".to_string()),
            MathToken::Minus,
            MathToken::Number("4".to_string()),
            MathToken::RParen,
            MathToken::Slash,
        ]
    );
    assert_eq!(stop, Some('x'));
}

#[test]
fn tokenize_keeps_number_text_for_caller() {
    let (tokens, stop) = tokenize(&chars("1..2.3"));
    assert_eq!(tokens, vec![MathToken::Number("1..2.3".to_string())]);
    assert_eq!(stop, None);
}

#[test]
fn tokenize_empty_and_blank() {
    assert_eq!(tokenize(&chars("")), (vec![], None));
    assert_eq!(tokenize(&chars(" \t ")), (vec![], None));
    assert_eq!(tokenize(&chars("\n1")), (vec![], Some('\n')));
}
