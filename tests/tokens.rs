use exprvm::parser::tokenizer::{show_token, Token, Tokenizer};

#[test]
fn token_names() {
    assert_eq!(show_token(Token::EOS), "EOS");
    assert_eq!(show_token(Token::ZERO), "ZERO");
    assert_eq!(show_token(Token::SEVEN), "SEVEN");
    assert_eq!(show_token(Token::OPEN), "OPEN");
    assert_eq!(show_token(Token::CLOSE), "CLOSE");
    assert_eq!(show_token(Token::PLUS), "PLUS");
    assert_eq!(show_token(Token::MULT), "MULT");
}

#[test]
fn tokenizer_skips_other_characters() {
    let mut t = Tokenizer::new(" a1 +\t(b2)*");
    assert_eq!(t.peek(), Token::ONE);
    t.next_token();
    assert_eq!(t.peek(), Token::PLUS);
    t.next_token();
    assert_eq!(t.peek(), Token::OPEN);
    t.next_token();
    assert_eq!(t.peek(), Token::TWO);
    t.next_token();
    assert_eq!(t.peek(), Token::CLOSE);
    t.next_token();
    assert_eq!(t.peek(), Token::MULT);
    t.next_token();
    assert_eq!(t.peek(), Token::EOS);
    t.next_token();
    assert_eq!(t.peek(), Token::EOS);
}

#[test]
fn empty_input_is_at_end() {
    let t = Tokenizer::new("  xyz ");
    assert_eq!(t.peek(), Token::EOS);
}

#[test]
fn show_lists_tokens_after_the_current_one() {
    let mut t = Tokenizer::new("1+ x(2)");
    assert_eq!(t.show(), "PLUS;OPEN;TWO;CLOSE;EOS");
    assert_eq!(t.peek(), Token::ONE);
    t.next_token();
    assert_eq!(t.peek(), Token::EOS);
}

#[test]
fn show_at_the_end() {
    let mut t = Tokenizer::new("");
    assert_eq!(t.show(), "EOS");
}

#[test]
fn digit_values() {
    assert_eq!(Token::ZERO.digit(), Some(0));
    assert_eq!(Token::NINE.digit(), Some(9));
    assert_eq!(Token::PLUS.digit(), None);
    assert_eq!(Token::EOS.digit(), None);
}
