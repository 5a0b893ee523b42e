//! The tokens of a command line: commands, variables, quoted text and the
//! operators between them.
use vstd::prelude::*;
use crate::text::{chars_of, string_from_range};

verus! {

/// A redirection operator.
#[derive(Debug, PartialEq, Eq, Clone, Copy, Structural)]
pub enum TokenRedirection {
    /// `<`
    RedirectionInput,
    /// `>>`
    RedirectionOutputAppend,
    /// `>`
    RedirectionOutputOverwrite,
}

/// A control operator.
#[derive(Debug, PartialEq, Eq, Clone, Copy, Structural)]
pub enum TokenLogic {
    /// `(`
    LeftParen,
    /// `)`
    RightParen,
    /// `&`
    Background,
    /// `&&`
    And,
    /// `||`
    Or,
    /// `|`
    Pipe,
    /// `;`
    SemiColon,
}

/// An operator token.
#[derive(Debug, PartialEq, Eq, Clone, Copy, Structural)]
pub enum TokenOperator {
    Redirection(TokenRedirection),
    Logic(TokenLogic),
}

/// A token that is not an operator.
#[derive(Debug, PartialEq, Eq, Clone)]
pub enum TokenNotOperator {
    Command(String),
    /// The name after a `$`.
    Variable(String),
    /// Text between quotes, quotes included.
    Inquote(String),
}

/// A token of a command line.
#[derive(Debug, PartialEq, Eq, Clone)]
pub enum Token {
    Operator(TokenOperator),
    NotOperator(TokenNotOperator),
}

/// An error met while turning tokens into an instruction.
#[derive(Debug, Clone, PartialEq, Eq, Structural)]
pub enum TokenError {
    OnlyNotOperatorToken(TokenOperator),
    NoToken,
}

/// The mathematical value of a token: an operator, or a kind of text with
/// its characters.
pub enum SpecToken {
    Op(TokenOperator),
    Command(Seq<char>),
    Variable(Seq<char>),
    Inquote(Seq<char>),
}

impl View for Token {
    type V = SpecToken;

    open spec fn view(&self) -> SpecToken {
        match self {
            Token::Operator(op) => SpecToken::Op(*op),
            Token::NotOperator(TokenNotOperator::Command(s)) => SpecToken::Command(s@),
            Token::NotOperator(TokenNotOperator::Variable(s)) => SpecToken::Variable(s@),
            Token::NotOperator(TokenNotOperator::Inquote(s)) => SpecToken::Inquote(s@),
        }
    }
}

/// The mathematical values of a sequence of tokens.
pub open spec fn tokens_view(s: Seq<Token>) -> Seq<SpecToken> {
    s.map_values(|t: Token| t@)
}

/// The token of a logic operator.
pub open spec fn logic(l: TokenLogic) -> SpecToken {
    SpecToken::Op(TokenOperator::Logic(l))
}

/// The token of a redirection operator.
pub open spec fn redirection(r: TokenRedirection) -> SpecToken {
    SpecToken::Op(TokenOperator::Redirection(r))
}

/// The characters that start an operator.
pub open spec fn operator_char(c: char) -> bool {
    c == '>' || c == '<' || c == '|' || c == '&' || c == ';'
}

/// The characters that open quoted text.
pub open spec fn quote_char(c: char) -> bool {
    c == '\'' || c == '"'
}

/// What `trim_inquote` gives: the text between a pair of matching quotes
/// that enclose it, or the text unchanged.
pub open spec fn spec_trim_inquote(s: Seq<char>) -> Seq<char> {
    if s.len() >= 2 && quote_char(s[0]) && s[0] == s.last() {
        s.subrange(1, s.len() - 1)
    } else {
        s
    }
}

/// The text of an operator.
pub open spec fn operator_text(op: TokenOperator) -> Seq<char> {
    match op {
        TokenOperator::Logic(TokenLogic::And) => "&&"@,
        TokenOperator::Logic(TokenLogic::Background) => "&"@,
        TokenOperator::Logic(TokenLogic::LeftParen) => "("@,
        TokenOperator::Logic(TokenLogic::Or) => "||"@,
        TokenOperator::Logic(TokenLogic::Pipe) => "|"@,
        TokenOperator::Logic(TokenLogic::RightParen) => ")"@,
        TokenOperator::Logic(TokenLogic::SemiColon) => ";"@,
        TokenOperator::Redirection(TokenRedirection::RedirectionInput) => "<"@,
        TokenOperator::Redirection(TokenRedirection::RedirectionOutputAppend) => ">>"@,
        TokenOperator::Redirection(TokenRedirection::RedirectionOutputOverwrite) => ">"@,
    }
}

/// The text shown for a token.
pub open spec fn token_text(t: SpecToken) -> Seq<char> {
    match t {
        SpecToken::Op(op) => operator_text(op),
        SpecToken::Command(s) => "Command("@ + s + ")"@,
        SpecToken::Variable(s) => "Variable("@ + s + ")"@,
        SpecToken::Inquote(s) => "Inquote("@ + s + ")"@,
    }
}

impl Token {
    pub fn get_command(command: String) -> (t: Token)
        ensures
            t@ == SpecToken::Command(command@),
    {
        Token::NotOperator(TokenNotOperator::Command(command))
    }

    pub fn get_variable(var: String) -> (t: Token)
        ensures
            t@ == SpecToken::Variable(var@),
    {
        Token::NotOperator(TokenNotOperator::Variable(var))
    }

    pub fn get_inquote(inquote: String) -> (t: Token)
        ensures
            t@ == SpecToken::Inquote(inquote@),
    {
        Token::NotOperator(TokenNotOperator::Inquote(inquote))
    }

    pub fn get_redirection_input() -> (t: Token)
        ensures
            t@ == redirection(TokenRedirection::RedirectionInput),
    {
        Token::Operator(TokenOperator::Redirection(TokenRedirection::RedirectionInput))
    }

    pub fn get_redirection_output_append() -> (t: Token)
        ensures
            t@ == redirection(TokenRedirection::RedirectionOutputAppend),
    {
        Token::Operator(TokenOperator::Redirection(TokenRedirection::RedirectionOutputAppend))
    }

    pub fn get_redirection_output_overwrite() -> (t: Token)
        ensures
            t@ == redirection(TokenRedirection::RedirectionOutputOverwrite),
    {
        Token::Operator(TokenOperator::Redirection(TokenRedirection::RedirectionOutputOverwrite))
    }

    pub fn get_left_paren() -> (t: Token)
        ensures
            t@ == logic(TokenLogic::LeftParen),
    {
        Token::Operator(TokenOperator::Logic(TokenLogic::LeftParen))
    }

    pub fn get_right_paren() -> (t: Token)
        ensures
            t@ == logic(TokenLogic::RightParen),
    {
        Token::Operator(TokenOperator::Logic(TokenLogic::RightParen))
    }

    pub fn get_background() -> (t: Token)
        ensures
            t@ == logic(TokenLogic::Background),
    {
        Token::Operator(TokenOperator::Logic(TokenLogic::Background))
    }

    pub fn get_and() -> (t: Token)
        ensures
            t@ == logic(TokenLogic::And),
    {
        Token::Operator(TokenOperator::Logic(TokenLogic::And))
    }

    pub fn get_or() -> (t: Token)
        ensures
            t@ == logic(TokenLogic::Or),
    {
        Token::Operator(TokenOperator::Logic(TokenLogic::Or))
    }

    pub fn get_pipe() -> (t: Token)
        ensures
            t@ == logic(TokenLogic::Pipe),
    {
        Token::Operator(TokenOperator::Logic(TokenLogic::Pipe))
    }

    pub fn get_semi_colon() -> (t: Token)
        ensures
            t@ == logic(TokenLogic::SemiColon),
    {
        Token::Operator(TokenOperator::Logic(TokenLogic::SemiColon))
    }

    pub fn is_and(&self) -> (b: bool)
        ensures
            b == (self@ == logic(TokenLogic::And)),
    {
        match self {
            Token::Operator(TokenOperator::Logic(TokenLogic::And)) => true,
            _ => false,
        }
    }

    pub fn is_or(&self) -> (b: bool)
        ensures
            b == (self@ == logic(TokenLogic::Or)),
    {
        match self {
            Token::Operator(TokenOperator::Logic(TokenLogic::Or)) => true,
            _ => false,
        }
    }

    pub fn is_background(&self) -> (b: bool)
        ensures
            b == (self@ == logic(TokenLogic::Background)),
    {
        match self {
            Token::Operator(TokenOperator::Logic(TokenLogic::Background)) => true,
            _ => false,
        }
    }

    pub fn is_pipe(&self) -> (b: bool)
        ensures
            b == (self@ == logic(TokenLogic::Pipe)),
    {
        match self {
            Token::Operator(TokenOperator::Logic(TokenLogic::Pipe)) => true,
            _ => false,
        }
    }

    pub fn is_semi_colon(&self) -> (b: bool)
        ensures
            b == (self@ == logic(TokenLogic::SemiColon)),
    {
        match self {
            Token::Operator(TokenOperator::Logic(TokenLogic::SemiColon)) => true,
            _ => false,
        }
    }

    pub fn is_var(&self) -> (b: bool)
        ensures
            b == (self@ is Variable),
    {
        match self {
            Token::NotOperator(TokenNotOperator::Variable(_)) => true,
            _ => false,
        }
    }

    pub fn is_command(&self) -> (b: bool)
        ensures
            b == (self@ is Command),
    {
        match self {
            Token::NotOperator(TokenNotOperator::Command(_)) => true,
            _ => false,
        }
    }

    pub fn is_redirection(&self) -> (b: bool)
        ensures
            b == (self@ matches SpecToken::Op(TokenOperator::Redirection(_))),
    {
        match self {
            Token::Operator(TokenOperator::Redirection(_)) => true,
            _ => false,
        }
    }

    pub fn is_logic(&self) -> (b: bool)
        ensures
            b == (self@ matches SpecToken::Op(TokenOperator::Logic(_))),
    {
        match self {
            Token::Operator(TokenOperator::Logic(_)) => true,
            _ => false,
        }
    }

    pub fn is_inquote(&self) -> (b: bool)
        ensures
            b == (self@ is Inquote),
    {
        match self {
            Token::NotOperator(TokenNotOperator::Inquote(_)) => true,
            _ => false,
        }
    }

    /// A copy of this token.
    pub fn duplicate(&self) -> (t: Token)
        ensures
            t@ == self@,
    {
        match self {
            Token::Operator(op) => Token::Operator(*op),
            Token::NotOperator(TokenNotOperator::Command(s)) => Token::NotOperator(
                TokenNotOperator::Command(s.clone()),
            ),
            Token::NotOperator(TokenNotOperator::Variable(s)) => Token::NotOperator(
                TokenNotOperator::Variable(s.clone()),
            ),
            Token::NotOperator(TokenNotOperator::Inquote(s)) => Token::NotOperator(
                TokenNotOperator::Inquote(s.clone()),
            ),
        }
    }

    /// The text shown for this token: the operator itself, or the kind of
    /// text with the text in brackets.
    pub fn to_string(&self) -> (res: String)
        ensures
            res@ == token_text(self@),
    {
        let res = match self {
            Token::Operator(TokenOperator::Logic(TokenLogic::And)) => String::from_str("&&"),
            Token::Operator(TokenOperator::Logic(TokenLogic::Background)) => String::from_str("&"),
            Token::Operator(TokenOperator::Logic(TokenLogic::LeftParen)) => String::from_str("("),
            Token::Operator(TokenOperator::Logic(TokenLogic::Or)) => String::from_str("||"),
            Token::Operator(TokenOperator::Logic(TokenLogic::Pipe)) => String::from_str("|"),
            Token::Operator(TokenOperator::Logic(TokenLogic::RightParen)) => String::from_str(")"),
            Token::Operator(TokenOperator::Logic(TokenLogic::SemiColon)) => String::from_str(";"),
            Token::Operator(TokenOperator::Redirection(TokenRedirection::RedirectionInput)) => {
                String::from_str("<")
            },
            Token::Operator(
                TokenOperator::Redirection(TokenRedirection::RedirectionOutputAppend),
            ) => String::from_str(">>"),
            Token::Operator(
                TokenOperator::Redirection(TokenRedirection::RedirectionOutputOverwrite),
            ) => String::from_str(">"),
            Token::NotOperator(TokenNotOperator::Command(s)) => {
                let mut r = String::from_str("Command(");
                r.append(s.as_str());
                r.append(")");
                r
            },
            Token::NotOperator(TokenNotOperator::Variable(s)) => {
                let mut r = String::from_str("Variable(");
                r.append(s.as_str());
                r.append(")");
                r
            },
            Token::NotOperator(TokenNotOperator::Inquote(s)) => {
                let mut r = String::from_str("Inquote(");
                r.append(s.as_str());
                r.append(")");
                r
            },
        };
        res
    }
}

impl TokenNotOperator {
    /// Removes a pair of matching quotes (both `"` or both `'`) that enclose
    /// the text; any other text is given back unchanged. A lone quote
    /// character is left out: the byte range between the quotes would be
    /// reversed.
    pub fn trim_inquote(inquote: String) -> (res: String)
        requires
            !(inquote@.len() == 1 && quote_char(inquote@[0])),
        ensures
            res@ == spec_trim_inquote(inquote@),
    {
        let v = chars_of(inquote.as_str());
        let n = v.len();
        if n == 0 {
            return inquote;
        }
        let first_char = v[0];
        let last_char = v[n - 1];
        if (first_char == '"' && last_char == '"') || (first_char == '\'' && last_char == '\'') {
            return string_from_range(&v, 1, n - 1);
        }
        inquote
    }
}

impl TokenError {
    /// The text shown for this error.
    pub fn to_string(&self) -> (res: String)
        ensures
            res@ == "Error: "@ + (match self {
                TokenError::OnlyNotOperatorToken(_) => "Should have only TokenNotOperator"@,
                TokenError::NoToken => "No token found in Vec<Token>"@,
            }),
    {
        let mut res = String::from_str("Error: ");
        match self {
            TokenError::OnlyNotOperatorToken(_) => res.append("Should have only TokenNotOperator"),
            TokenError::NoToken => res.append("No token found in Vec<Token>"),
        }
        res
    }
}

/// Whether `c` starts an operator: one of `> < | & ;`.
pub fn is_operator(c: char) -> (b: bool)
    ensures
        b == operator_char(c),
{
    c == '>' || c == '<' || c == '|' || c == '&' || c == ';'
}

/// Whether `c` starts a variable: `$`.
pub fn is_var(c: char) -> (b: bool)
    ensures
        b == (c == '$'),
{
    c == '$'
}

/// Whether `c` belongs to a command: neither an operator nor `$`.
pub fn is_command(c: char) -> (b: bool)
    ensures
        b == (!operator_char(c) && c != '$'),
{
    !is_operator(c) && !is_var(c)
}

/// Whether `c` opens quoted text: `'` or `"`.
pub fn is_quote(c: char) -> (b: bool)
    ensures
        b == quote_char(c),
{
    c == '\'' || c == '"'
}

} // verus!
