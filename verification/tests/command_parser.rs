use rust_shell::command_parser::{check_commands, divide_tokens, get_token};
use rust_shell::shell_error::ShellError;
use rust_shell::token::Token;

#[test]
fn check_getCommand_checkCommands_cmd1() {
    let cmd1: String = "ls -l".to_string();

    let tok1_cmd1 = Token::get_command(cmd1.clone());

    let mut tok1 = Vec::new();
    tok1.push(tok1_cmd1);

    assert_eq!(get_token(&cmd1).unwrap(), tok1);
    let check_tok1 = get_token(&cmd1).unwrap();
    assert_eq!(check_commands(check_tok1).unwrap(), tok1);
}

#[test]
fn check_getCommand_checkCommands_cmd2() {
    let cmd2: String = "Bonjour | |".to_string();

    let tok1_cmd2 = Token::get_command("Bonjour".to_string());
    let tok2_cmd2 = Token::get_pipe();
    let tok3_cmd2 = Token::get_pipe();

    let mut tok2 = Vec::new();
    tok2.push(tok1_cmd2);
    tok2.push(tok2_cmd2);
    tok2.push(tok3_cmd2);

    assert_eq!(get_token(&cmd2).unwrap(), tok2);
    let check_tok2 = get_token(&cmd2).unwrap();
    assert_eq!(check_commands(check_tok2), Err(ShellError::CommandAfterOperator));
}

#[test]
fn check_getCommand_checkCommands_cmd3() {
    let cmd3: String = "echo bonjour a tous > \"bonjour a tous\"".to_string();

    let tok1_cmd3 = Token::get_command("echo bonjour a tous".to_string());
    let tok2_cmd3 = Token::get_redirection_output_overwrite();
    let tok3_cmd3 = Token::get_inquote("\"bonjour a tous\"".to_string());

    let mut tok3 = Vec::new();
    tok3.push(tok1_cmd3);
    tok3.push(tok2_cmd3);
    tok3.push(tok3_cmd3);

    assert_eq!(get_token(&cmd3).unwrap(), tok3);
    let check_tok3 = get_token(&cmd3).unwrap();
    assert_eq!(check_commands(check_tok3).unwrap(), tok3);
}

#[test]
fn check_getCommand_checkCommands_cmd4() {
    let cmd4: String = "ls; ls".to_string();

    let tok1_cmd4 = Token::get_command("ls".to_string());
    let tok2_cmd4 = Token::get_semi_colon();
    let tok3_cmd4 = Token::get_command("ls".to_string());

    let mut tok4 = Vec::new();
    tok4.push(tok1_cmd4);
    tok4.push(tok2_cmd4);
    tok4.push(tok3_cmd4);

    assert_eq!(get_token(&cmd4).unwrap(), tok4);
    let check_tok4 = get_token(&cmd4).unwrap();
    assert_eq!(check_commands(check_tok4).unwrap(), tok4);
}

#[test]
fn check_divideToken_cmd4() {
    let cmd4: String = "ls; ls".to_string();

    let check_tok4 = get_token(&cmd4).unwrap();
    let check_divided_tok4 = divide_tokens(check_tok4);

    let tok1_cmd4 = Token::get_command("ls".to_string());
    let tok3_cmd4 = Token::get_command("ls".to_string());
    let mut divided_tok4_1_2 = Vec::new();
    divided_tok4_1_2.push(tok1_cmd4);
    let mut divided_tok4_2_2 = Vec::new();
    divided_tok4_2_2.push(tok3_cmd4);
    let mut divided_tok4 = Vec::new();
    divided_tok4.push(divided_tok4_1_2);
    divided_tok4.push(divided_tok4_2_2);

    assert_eq!(check_divided_tok4, divided_tok4);
}

#[test]
fn check_getCommand_checkCommands_cmd5() {
    let cmd5 = "ls;;".to_string();

    let tok1_cmd5 = Token::get_command("ls".to_string());
    let tok2_cmd5 = Token::get_semi_colon();
    let tok3_cmd5 = Token::get_semi_colon();

    let mut tok5 = Vec::new();
    tok5.push(tok1_cmd5);
    tok5.push(tok2_cmd5);
    tok5.push(tok3_cmd5);

    assert_eq!(get_token(&cmd5).unwrap(), tok5);
    let check_tok5 = get_token(&cmd5).unwrap();
    assert_eq!(check_commands(check_tok5), Err(ShellError::CommandAfterOperator));
}

#[test]
fn tokenizer_refuses_a_leading_operator() {
    assert_eq!(get_token("| ls"), Err(ShellError::CommandFirst));
    assert_eq!(get_token("; ls"), Err(ShellError::CommandFirst));
}

#[test]
fn tokenizer_reports_an_unclosed_quote() {
    assert_eq!(
        get_token("echo 'abc"),
        Err(ShellError::QuoteNotClosed("'abc".to_string()))
    );
}

#[test]
fn tokenizer_reads_every_operator() {
    let toks = get_token("a >> b > c < d || e | f && g & h").unwrap();
    let expected = vec![
        Token::get_command("a".to_string()),
        Token::get_redirection_output_append(),
        Token::get_command("b".to_string()),
        Token::get_redirection_output_overwrite(),
        Token::get_command("c".to_string()),
        Token::get_redirection_input(),
        Token::get_command("d".to_string()),
        Token::get_or(),
        Token::get_command("e".to_string()),
        Token::get_pipe(),
        Token::get_command("f".to_string()),
        Token::get_and(),
        Token::get_command("g".to_string()),
        Token::get_background(),
        Token::get_command("h".to_string()),
    ];
    assert_eq!(toks, expected);
}

#[test]
fn tokenizer_reads_variables() {
    let toks = get_token("echo $HOME").unwrap();
    assert_eq!(
        toks,
        vec![Token::get_command("echo".to_string()), Token::get_variable("HOME".to_string())]
    );
    // a lone dollar is a command
    let toks = get_token("echo $").unwrap();
    assert_eq!(
        toks,
        vec![Token::get_command("echo".to_string()), Token::get_command("$".to_string())]
    );
    // the name runs up to the next operator
    let toks = get_token("echo $A b|c").unwrap();
    assert_eq!(
        toks,
        vec![
            Token::get_command("echo".to_string()),
            Token::get_variable("A b".to_string()),
            Token::get_pipe(),
            Token::get_command("c".to_string()),
        ]
    );
}

#[test]
fn tokenizer_keeps_single_quotes() {
    let toks = get_token("echo 'a b'").unwrap();
    assert_eq!(
        toks,
        vec![Token::get_command("echo".to_string()), Token::get_inquote("'a b'".to_string())]
    );
}

#[test]
fn tokenizer_on_empty_and_blank_lines() {
    assert_eq!(get_token("").unwrap(), Vec::<Token>::new());
    assert_eq!(get_token("   ").unwrap(), Vec::<Token>::new());
}

#[test]
fn divide_tokens_drops_a_trailing_empty_run() {
    let toks = get_token("a;").unwrap();
    assert_eq!(divide_tokens(toks), vec![vec![Token::get_command("a".to_string())]]);
    let toks = get_token("a;;b").unwrap();
    assert_eq!(
        divide_tokens(toks),
        vec![
            vec![Token::get_command("a".to_string())],
            vec![],
            vec![Token::get_command("b".to_string())]
        ]
    );
}
