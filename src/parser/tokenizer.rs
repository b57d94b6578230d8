use vstd::prelude::*;

verus! {

/// The tokens of the expression language. `EOS` marks the end of the input.
#[derive(PartialEq, Eq, Structural, Clone, Copy, Debug)]
pub enum Token {
    EOS,
    ZERO,
    ONE,
    TWO,
    THREE,
    FOUR,
    FIVE,
    SIX,
    SEVEN,
    EIGHT,
    NINE,
    OPEN,
    CLOSE,
    PLUS,
    MULT,
}

/// The token that a character stands for; `None` for a character that the
/// tokenizer skips.
pub open spec fn token_of(c: char) -> Option<Token> {
    match c {
        '0' => Some(Token::ZERO),
        '1' => Some(Token::ONE),
        '2' => Some(Token::TWO),
        '3' => Some(Token::THREE),
        '4' => Some(Token::FOUR),
        '5' => Some(Token::FIVE),
        '6' => Some(Token::SIX),
        '7' => Some(Token::SEVEN),
        '8' => Some(Token::EIGHT),
        '9' => Some(Token::NINE),
        '(' => Some(Token::OPEN),
        ')' => Some(Token::CLOSE),
        '+' => Some(Token::PLUS),
        '*' => Some(Token::MULT),
        _ => None,
    }
}

/// The tokens of a character sequence, in order, without the final `EOS`.
pub open spec fn tokens_of(s: Seq<char>) -> Seq<Token>
    decreases s.len(),
{
    if s.len() == 0 {
        Seq::empty()
    } else {
        let rest = tokens_of(s.drop_first());
        match token_of(s[0]) {
            Some(t) => seq![t] + rest,
            None => rest,
        }
    }
}

/// The value of a digit token.
pub open spec fn digit_of(t: Token) -> Option<i64> {
    match t {
        Token::ZERO => Some(0),
        Token::ONE => Some(1),
        Token::TWO => Some(2),
        Token::THREE => Some(3),
        Token::FOUR => Some(4),
        Token::FIVE => Some(5),
        Token::SIX => Some(6),
        Token::SEVEN => Some(7),
        Token::EIGHT => Some(8),
        Token::NINE => Some(9),
        _ => None,
    }
}

impl Token {
    /// The value of a digit token.
    pub fn digit(self) -> (r: Option<i64>)
        ensures
            r == digit_of(self),
    {
        match self {
            Token::ZERO => Some(0),
            Token::ONE => Some(1),
            Token::TWO => Some(2),
            Token::THREE => Some(3),
            Token::FOUR => Some(4),
            Token::FIVE => Some(5),
            Token::SIX => Some(6),
            Token::SEVEN => Some(7),
            Token::EIGHT => Some(8),
            Token::NINE => Some(9),
            _ => None,
        }
    }
}

/// The first token of a sequence, or `EOS` if it is empty.
pub open spec fn head(ts: Seq<Token>) -> Token {
    if ts.len() == 0 {
        Token::EOS
    } else {
        ts[0]
    }
}

/// The name under which a token is shown.
pub open spec fn token_name(t: Token) -> Seq<char> {
    match t {
        Token::EOS => "EOS"@,
        Token::ZERO => "ZERO"@,
        Token::ONE => "ONE"@,
        Token::TWO => "TWO"@,
        Token::THREE => "THREE"@,
        Token::FOUR => "FOUR"@,
        Token::FIVE => "FIVE"@,
        Token::SIX => "SIX"@,
        Token::SEVEN => "SEVEN"@,
        Token::EIGHT => "EIGHT"@,
        Token::NINE => "NINE"@,
        Token::OPEN => "OPEN"@,
        Token::CLOSE => "CLOSE"@,
        Token::PLUS => "PLUS"@,
        Token::MULT => "MULT"@,
    }
}

/// The names of a token sequence, separated by `;`.
pub open spec fn show_tokens(ts: Seq<Token>) -> Seq<char>
    decreases ts.len(),
{
    if ts.len() == 0 {
        Seq::empty()
    } else if ts.len() == 1 {
        token_name(ts[0])
    } else {
        token_name(ts[0]) + ";"@ + show_tokens(ts.drop_first())
    }
}

/// Tokenizing a concatenation tokenizes each part.
pub proof fn lemma_tokens_of_concat(a: Seq<char>, b: Seq<char>)
    ensures
        tokens_of(a + b) == tokens_of(a) + tokens_of(b),
    decreases a.len(),
{
    if a.len() == 0 {
        assert(a + b =~= b);
        assert(tokens_of(a) + tokens_of(b) =~= tokens_of(b));
    } else {
        assert((a + b).drop_first() =~= a.drop_first() + b);
        lemma_tokens_of_concat(a.drop_first(), b);
        match token_of(a[0]) {
            Some(t) => {
                assert(seq![t] + (tokens_of(a.drop_first()) + tokens_of(b)) =~= (seq![t]
                    + tokens_of(a.drop_first())) + tokens_of(b));
            },
            None => {},
        }
    }
}

/// No token of a character sequence is `EOS`.
pub proof fn lemma_no_eos(s: Seq<char>)
    ensures
        forall|i: int| 0 <= i < tokens_of(s).len() ==> tokens_of(s)[i] != Token::EOS,
    decreases s.len(),
{
    if s.len() > 0 {
        lemma_no_eos(s.drop_first());
        let rest = tokens_of(s.drop_first());
        match token_of(s[0]) {
            Some(t) => {
                assert forall|i: int| 0 <= i < tokens_of(s).len() implies tokens_of(s)[i]
                    != Token::EOS by {
                    if i > 0 {
                        assert(tokens_of(s)[i] == rest[i - 1]);
                    }
                }
            },
            None => {},
        }
    }
}

pub fn show_token(token: Token) -> (r: String)
    ensures
        r@ == token_name(token),
{
    match token {
        Token::EOS => "EOS".to_string(),
        Token::ZERO => "ZERO".to_string(),
        Token::ONE => "ONE".to_string(),
        Token::TWO => "TWO".to_string(),
        Token::THREE => "THREE".to_string(),
        Token::FOUR => "FOUR".to_string(),
        Token::FIVE => "FIVE".to_string(),
        Token::SIX => "SIX".to_string(),
        Token::SEVEN => "SEVEN".to_string(),
        Token::EIGHT => "EIGHT".to_string(),
        Token::NINE => "NINE".to_string(),
        Token::OPEN => "OPEN".to_string(),
        Token::CLOSE => "CLOSE".to_string(),
        Token::PLUS => "PLUS".to_string(),
        Token::MULT => "MULT".to_string(),
    }
}

/// The lookahead tokenizer: the token under the cursor, and the reader of the
/// characters after it.
pub struct Tokenizer {
    tokenize: Tokenize,
    current_token: Token,
}

impl Tokenizer {
    /// The tokens that the reader has not handed out yet.
    pub closed spec fn upcoming(&self) -> Seq<Token> {
        self.tokenize.rest()
    }

    /// The tokens still to be read, the current one first; empty at the end.
    pub closed spec fn tokens(&self) -> Seq<Token> {
        if self.current_token == Token::EOS {
            Seq::empty()
        } else {
            seq![self.current_token] + self.upcoming()
        }
    }

    pub closed spec fn wf(&self) -> bool {
        &&& self.tokenize.wf()
        &&& self.current_token == Token::EOS ==> self.tokenize.rest().len() == 0
    }

    pub fn new(input: &str) -> (r: Tokenizer)
        ensures
            r.wf(),
            r.tokens() == tokens_of(input@),
    {
        let mut tokenize = Tokenize::new(input);
        assert(tokenize.input@.subrange(0, tokenize.input@.len() as int) =~= input@);
        let ghost all = tokenize.rest();
        let ghost chars = tokenize.chars_left();
        let current_token = tokenize.next();
        let r = Tokenizer { tokenize, current_token };
        proof {
            lemma_no_eos(chars);
            if all.len() > 0 {
                assert(r.tokens() =~= all);
            }
        }
        r
    }

    /// The current token: the first of those still to be read, or `EOS`.
    pub fn peek(&self) -> (t: Token)
        ensures
            t == head(self.tokens()),
    {
        self.current_token
    }

    /// Moves to the next token; at the end the tokenizer stays at `EOS`.
    pub fn next_token(&mut self)
        requires
            old(self).wf(),
        ensures
            final(self).wf(),
            final(self).tokens() == if old(self).tokens().len() == 0 {
                old(self).tokens()
            } else {
                old(self).tokens().drop_first()
            },
    {
        let ghost rest = self.tokenize.rest();
        proof {
            lemma_no_eos(self.tokenize.chars_left());
        }
        self.current_token = self.tokenize.next();
        proof {
            if old(self).current_token != Token::EOS {
                assert(old(self).tokens().drop_first() =~= rest);
            }
            if rest.len() > 0 {
                assert(self.tokens() =~= rest);
            }
        }
    }

    /// The names of the tokens after the current one, `EOS` included,
    /// separated by `;`. The reader is then at the end of the input.
    pub fn show(&mut self) -> (r: String)
        requires
            old(self).wf(),
        ensures
            final(self).wf(),
            r@ == show_tokens(old(self).upcoming().push(Token::EOS)),
            final(self).tokens() == if old(self).tokens().len() == 0 {
                old(self).tokens()
            } else {
                seq![old(self).tokens()[0]]
            },
    {
        let r = self.tokenize.show();
        proof {
            if self.current_token != Token::EOS {
                assert(self.upcoming() =~= Seq::<Token>::empty());
                assert(old(self).tokens()[0] == self.current_token);
            }
            if self.current_token != Token::EOS {
                assert(self.tokens() =~= seq![old(self).tokens()[0]]);
            }
        }
        r
    }
}

/// The reader of characters: the input and the cursor into it.
struct Tokenize {
    input: Vec<char>,
    position: usize,
}

impl Tokenize {
    spec fn wf(&self) -> bool {
        self.position <= self.input@.len()
    }

    /// The tokens of the characters from the cursor on.
    spec fn rest(&self) -> Seq<Token> {
        tokens_of(self.chars_left())
    }

    /// The characters from the cursor on.
    spec fn chars_left(&self) -> Seq<char> {
        self.input@.subrange(self.position as int, self.input@.len() as int)
    }

    fn new(input: &str) -> (r: Tokenize)
        ensures
            r.wf(),
            r.input@ == input@,
            r.position == 0,
    {
        let mut chars: Vec<char> = Vec::new();
        for c in it: input.chars()
            invariant
                chars@ == it.seq().take(it.index()),
        {
            chars.push(c);
        }
        assert(chars@ =~= input@);
        Tokenize { input: chars, position: 0 }
    }

    /// Skips the characters that stand for no token and hands out the next
    /// token, or `EOS` at the end of the input.
    fn next(&mut self) -> (t: Token)
        requires
            old(self).wf(),
        ensures
            final(self).wf(),
            final(self).input == old(self).input,
            final(self).position >= old(self).position,
            old(self).rest().len() == 0 ==> t == Token::EOS && final(self).rest().len() == 0
                && final(self).position == final(self).input@.len(),
            old(self).rest().len() > 0 ==> t == old(self).rest()[0] && final(self).rest()
                == old(self).rest().drop_first(),
    {
        let len = self.input.len();
        loop
            invariant
                self.wf(),
                self.input == old(self).input,
                len == self.input@.len(),
                self.position >= old(self).position,
                self.rest() == old(self).rest(),
            decreases len - self.position,
        {
            if len <= self.position {
                assert(self.input@.subrange(self.position as int, len as int) =~= Seq::<char>::empty());
                return Token::EOS;
            }
            let c = self.input[self.position];
            let ghost s = self.input@.subrange(self.position as int, len as int);
            assert(s.drop_first() =~= self.input@.subrange(self.position + 1, len as int));
            self.position = self.position + 1;
            let t = match c {
                '0' => Token::ZERO,
                '1' => Token::ONE,
                '2' => Token::TWO,
                '3' => Token::THREE,
                '4' => Token::FOUR,
                '5' => Token::FIVE,
                '6' => Token::SIX,
                '7' => Token::SEVEN,
                '8' => Token::EIGHT,
                '9' => Token::NINE,
                '(' => Token::OPEN,
                ')' => Token::CLOSE,
                '+' => Token::PLUS,
                '*' => Token::MULT,
                _ => Token::EOS,
            };
            if t != Token::EOS {
                assert(seq![t] + self.rest() =~= old(self).rest());
                return t;
            }
        }
    }

    /// All tokens from the cursor on, ending with `EOS`.
    fn scan(&mut self) -> (r: Vec<Token>)
        requires
            old(self).wf(),
        ensures
            final(self).wf(),
            final(self).input == old(self).input,
            final(self).rest().len() == 0,
            r@ == old(self).rest().push(Token::EOS),
    {
        let mut tokens: Vec<Token> = Vec::new();
        loop
            invariant
                self.wf(),
                self.input == old(self).input,
                tokens@ + self.rest() == old(self).rest(),
            decreases self.rest().len(),
        {
            let ghost before = self.rest();
            proof {
                lemma_no_eos(self.chars_left());
            }
            let token = self.next();
            tokens.push(token);
            if token == Token::EOS {
                assert(tokens@ =~= old(self).rest().push(Token::EOS));
                return tokens;
            }
            assert(tokens@ + self.rest() =~= old(self).rest());
        }
    }

    fn show(&mut self) -> (r: String)
        requires
            old(self).wf(),
        ensures
            final(self).wf(),
            final(self).input == old(self).input,
            final(self).rest().len() == 0,
            r@ == show_tokens(old(self).rest().push(Token::EOS)),
    {
        let tokens = self.scan();
        let mut string = String::new();
        let n = tokens.len();
        assert(tokens@.skip(0) =~= tokens@);
        assert(string@ + show_tokens(tokens@) =~= show_tokens(tokens@));
        for i in 0..n
            invariant
                n == tokens@.len(),
                n >= 1,
                string@ + show_tokens(tokens@.skip(i as int)) == show_tokens(tokens@),
        {
            let ghost rest = tokens@.skip(i as int);
            assert(rest.drop_first() =~= tokens@.skip(i + 1));
            let ghost before = string@;
            let name = show_token(tokens[i]);
            string.append(name.as_str());
            if i < n - 1 {
                string.append(";");
                assert(string@ + show_tokens(tokens@.skip(i + 1)) =~= before + show_tokens(rest));
            } else {
                assert(tokens@.skip(i + 1) =~= Seq::<Token>::empty());
                assert(string@ + show_tokens(tokens@.skip(i + 1)) =~= before + show_tokens(rest));
            }
        }
        assert(tokens@.skip(n as int) =~= Seq::<Token>::empty());
        assert(tokens@.skip(0) =~= tokens@);
        string
    }
}

} // verus!
