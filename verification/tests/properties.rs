use rust_shell::command_parser::{divide_tokens, get_token};
use rust_shell::line_editor::{EditKey, LineEditor};
use rust_shell::shell_variables::ShellVariables;
use rust_shell::token::{Token, TokenNotOperator};

fn store() -> ShellVariables {
    ShellVariables::new(String::new(), "/w".to_string(), Some("me".to_string()), None)
}

#[test]
fn plain_tokens_are_not_changed_by_expansion() {
    let v = store();
    let toks = vec![
        Token::get_command("ls $x".to_string()),
        Token::get_pipe(),
        Token::get_inquote("'$USER and $HOME'".to_string()),
        Token::get_redirection_output_append(),
    ];
    assert_eq!(v.expand_variables(toks.clone()).unwrap(), toks);
}

#[test]
fn command_tokens_always_have_text() {
    for line in ["a ; ; b |", "   |  ", "x >   < y", "'q'   $v  ", "a&&&b"] {
        if let Ok(toks) = get_token(line) {
            for t in toks {
                if let Token::NotOperator(TokenNotOperator::Command(c)) = t {
                    assert!(!c.is_empty());
                }
            }
        }
    }
}

#[test]
fn dividing_keeps_every_other_token_in_order() {
    let toks = get_token("a; b | c;; d;").unwrap();
    let without: Vec<Token> = toks.iter().filter(|t| !t.is_semi_colon()).cloned().collect();
    let groups = divide_tokens(toks);
    let joined: Vec<Token> = groups.iter().flatten().cloned().collect();
    assert_eq!(joined, without);
    assert!(groups.iter().flatten().all(|t| !t.is_semi_colon()));
}

#[test]
fn a_recorded_command_comes_back_first_and_up_shows_it() {
    let mut v = store();
    v.update_history("echo one\n");
    v.update_history("echo two\n");
    let history = v.get_history();
    assert_eq!(history[0], "echo two");
    let mut e = LineEditor::new(history);
    e.handle_key(EditKey::Up);
    assert_eq!(e.line().get(), "echo two");
    e.handle_key(EditKey::Up);
    assert_eq!(e.line().get(), "echo one");
    e.handle_key(EditKey::Down);
    e.handle_key(EditKey::Down);
    assert_eq!(e.line().get(), "");
}

#[test]
fn dividing_counts_groups_and_joins_back() {
    for line in ["a; b | c;; d;", "a", "a;", ";;", ""] {
        let toks = if line.starts_with(';') {
            vec![Token::get_semi_colon(), Token::get_semi_colon()]
        } else {
            get_token(line).unwrap()
        };
        let semis = toks.iter().filter(|t| t.is_semi_colon()).count();
        let ends_with_semi = toks.last().map_or(false, |t| t.is_semi_colon());
        let groups = divide_tokens(toks.clone());
        let extra = if !toks.is_empty() && !ends_with_semi { 1 } else { 0 };
        assert_eq!(groups.len(), semis + extra);
        let mut joined = groups.join(&Token::get_semi_colon());
        if ends_with_semi {
            joined.push(Token::get_semi_colon());
        }
        assert_eq!(joined, toks);
    }
}
