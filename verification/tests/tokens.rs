use rust_shell::shell_error::ShellError;
use rust_shell::token::{
    is_command, is_operator, is_quote, is_var, Token, TokenError, TokenLogic, TokenNotOperator,
    TokenOperator, TokenRedirection,
};

#[test]
fn token_constructors_give_their_kind() {
    assert_eq!(
        Token::get_command("ls".to_string()),
        Token::NotOperator(TokenNotOperator::Command("ls".to_string()))
    );
    assert_eq!(
        Token::get_variable("HOME".to_string()),
        Token::NotOperator(TokenNotOperator::Variable("HOME".to_string()))
    );
    assert_eq!(
        Token::get_inquote("'a'".to_string()),
        Token::NotOperator(TokenNotOperator::Inquote("'a'".to_string()))
    );
    assert_eq!(
        Token::get_redirection_input(),
        Token::Operator(TokenOperator::Redirection(TokenRedirection::RedirectionInput))
    );
    assert_eq!(
        Token::get_redirection_output_append(),
        Token::Operator(TokenOperator::Redirection(TokenRedirection::RedirectionOutputAppend))
    );
    assert_eq!(
        Token::get_redirection_output_overwrite(),
        Token::Operator(TokenOperator::Redirection(TokenRedirection::RedirectionOutputOverwrite))
    );
    assert_eq!(Token::get_left_paren(), Token::Operator(TokenOperator::Logic(TokenLogic::LeftParen)));
    assert_eq!(Token::get_right_paren(), Token::Operator(TokenOperator::Logic(TokenLogic::RightParen)));
    assert_eq!(Token::get_background(), Token::Operator(TokenOperator::Logic(TokenLogic::Background)));
    assert_eq!(Token::get_and(), Token::Operator(TokenOperator::Logic(TokenLogic::And)));
    assert_eq!(Token::get_or(), Token::Operator(TokenOperator::Logic(TokenLogic::Or)));
    assert_eq!(Token::get_pipe(), Token::Operator(TokenOperator::Logic(TokenLogic::Pipe)));
    assert_eq!(Token::get_semi_colon(), Token::Operator(TokenOperator::Logic(TokenLogic::SemiColon)));
}

#[test]
fn token_predicates() {
    let and = Token::get_and();
    let or = Token::get_or();
    let cmd = Token::get_command("ls".to_string());
    let var = Token::get_variable("A".to_string());
    let quote = Token::get_inquote("'a'".to_string());
    let redir = Token::get_redirection_input();
    assert!(and.is_and() && !or.is_and() && !cmd.is_and());
    assert!(or.is_or() && !and.is_or());
    assert!(Token::get_background().is_background() && !and.is_background());
    assert!(Token::get_pipe().is_pipe() && !or.is_pipe());
    assert!(Token::get_semi_colon().is_semi_colon() && !cmd.is_semi_colon());
    assert!(var.is_var() && !cmd.is_var());
    assert!(cmd.is_command() && !quote.is_command());
    assert!(redir.is_redirection() && !and.is_redirection());
    assert!(and.is_logic() && Token::get_semi_colon().is_logic() && !redir.is_logic() && !cmd.is_logic());
    assert!(quote.is_inquote() && !cmd.is_inquote());
}

#[test]
fn token_text() {
    assert_eq!(Token::get_and().to_string(), "&&");
    assert_eq!(Token::get_background().to_string(), "&");
    assert_eq!(Token::get_or().to_string(), "||");
    assert_eq!(Token::get_pipe().to_string(), "|");
    assert_eq!(Token::get_semi_colon().to_string(), ";");
    assert_eq!(Token::get_left_paren().to_string(), "(");
    assert_eq!(Token::get_right_paren().to_string(), ")");
    assert_eq!(Token::get_redirection_input().to_string(), "<");
    assert_eq!(Token::get_redirection_output_append().to_string(), ">>");
    assert_eq!(Token::get_redirection_output_overwrite().to_string(), ">");
    assert_eq!(Token::get_command("ls -l".to_string()).to_string(), "Command(ls -l)");
    assert_eq!(Token::get_variable("HOME".to_string()).to_string(), "Variable(HOME)");
    assert_eq!(Token::get_inquote("'x'".to_string()).to_string(), "Inquote('x')");
}

#[test]
fn duplicate_gives_an_equal_token() {
    let t = Token::get_inquote("\"a b\"".to_string());
    assert_eq!(t.duplicate(), t);
    let t = Token::get_or();
    assert_eq!(t.duplicate(), t);
}

#[test]
fn trim_inquote_removes_matching_quotes() {
    assert_eq!(TokenNotOperator::trim_inquote("\"bonjour a tous\"".to_string()), "bonjour a tous");
    assert_eq!(TokenNotOperator::trim_inquote("'x'".to_string()), "x");
    assert_eq!(TokenNotOperator::trim_inquote("''".to_string()), "");
    // quotes that do not match are kept
    assert_eq!(TokenNotOperator::trim_inquote("'x\"".to_string()), "'x\"");
    assert_eq!(TokenNotOperator::trim_inquote("abc".to_string()), "abc");
    assert_eq!(TokenNotOperator::trim_inquote(String::new()), "");
}

#[test]
fn character_classes() {
    for c in ['>', '<', '|', '&', ';'] {
        assert!(is_operator(c));
        assert!(!is_command(c));
    }
    assert!(!is_operator('a'));
    assert!(is_var('$') && !is_var('a'));
    assert!(!is_command('$'));
    assert!(is_command('a') && is_command(' '));
    assert!(is_quote('\'') && is_quote('"') && !is_quote('`'));
}

#[test]
fn token_error_text() {
    assert_eq!(TokenError::NoToken.to_string(), "Error: No token found in Vec<Token>");
    assert_eq!(
        TokenError::OnlyNotOperatorToken(TokenOperator::Logic(TokenLogic::Pipe)).to_string(),
        "Error: Should have only TokenNotOperator"
    );
}

#[test]
fn shell_error_text() {
    assert_eq!(
        ShellError::QuoteNotClosed("'ab".to_string()).to_string(),
        "Error: quote unclosed detected :: 'ab"
    );
    assert_eq!(
        ShellError::ErrorWhileRestoringString.to_string(),
        "Error: unexpected error while restoring strings"
    );
    assert_eq!(ShellError::CommandError("x".to_string()).to_string(), "Error: command error :: x");
    assert_eq!(ShellError::EmptyCommand.to_string(), "Error: found an empty command");
    assert_eq!(
        ShellError::UnknownError("here".to_string()).to_string(),
        "Error: Unknown error append in :: here"
    );
    assert_eq!(
        ShellError::CommandFirst.to_string(),
        "Error: instruction has started with an operator and not a command"
    );
    assert_eq!(
        ShellError::CommandAfterOperator.to_string(),
        "Error: operator can't be followed by an operator"
    );
    assert_eq!(ShellError::EmptyVar.to_string(), "Error: encountered an empty var");
}

#[test]
fn shell_error_statuses() {
    assert_eq!(ShellError::handle_shell_error::<u8>(Ok(7)), Ok(7));
    assert_eq!(ShellError::handle_shell_error::<u8>(Err(ShellError::QuoteNotClosed(String::new()))), Err(1));
    assert_eq!(ShellError::handle_shell_error::<u8>(Err(ShellError::ErrorWhileRestoringString)), Err(2));
    assert_eq!(ShellError::handle_shell_error::<u8>(Err(ShellError::CommandError(String::new()))), Err(3));
    assert_eq!(ShellError::handle_shell_error::<u8>(Err(ShellError::EmptyCommand)), Err(4));
    assert_eq!(ShellError::handle_shell_error::<u8>(Err(ShellError::CommandFirst)), Err(5));
    assert_eq!(ShellError::handle_shell_error::<u8>(Err(ShellError::CommandAfterOperator)), Err(6));
    assert_eq!(ShellError::handle_shell_error::<u8>(Err(ShellError::EmptyVar)), Err(7));
    assert_eq!(ShellError::handle_shell_error::<u8>(Err(ShellError::UnknownError(String::new()))), Err(255));
}
