use rust_shell::command_parser::{
    build_instructions, get_token, redirection_requests, try_build_instructions, InstructionOrToken,
};
use rust_shell::executer::{
    chain_start, chain_step, check_pipeline, pipe, pipeline_status, split_and_or, split_background, ChainStep, IsSpawn,
};
use rust_shell::instruction::{Input, Instruction, Output};
use rust_shell::token::{Token, TokenError, TokenLogic, TokenOperator, TokenRedirection};

fn strings(v: &[&str]) -> Vec<String> {
    v.iter().map(|s| s.to_string()).collect()
}

fn describe_instruction(i: &Instruction) -> String {
    format!("{} {:?} {:?} {:?}", i.get_command(), i.get_args(), i.get_i(), i.get_o())
}

fn describe(items: &[InstructionOrToken]) -> Vec<String> {
    items
        .iter()
        .map(|x| match x {
            InstructionOrToken::Instruction(i) => describe_instruction(i),
            InstructionOrToken::Token(t) => t.to_string(),
        })
        .collect()
}

fn cmd(s: &str) -> Token {
    Token::get_command(s.to_string())
}

fn instruction(command: &str, args: &[&str]) -> Instruction {
    Instruction::from(command.to_string(), strings(args), Input::Stdin, Output::Stdout).unwrap()
}

#[test]
fn a_new_instruction_is_empty() {
    let mut i = Instruction::new();
    assert_eq!(i.get_command(), "");
    assert_eq!(i.get_args(), Vec::<String>::new());
    assert_eq!(i.get_len_args(), 0);
    assert_eq!(i.get_i(), &Input::Stdin);
    assert_eq!(i.get_o(), &Output::Stdout);
    assert!(i.is_empty());
    assert!(!i.is_malformed());
}

#[test]
fn an_instruction_needs_a_command() {
    assert!(Instruction::from(String::new(), Vec::new(), Input::Stdin, Output::Stdout).is_none());
    let mut i = Instruction::new();
    assert_eq!(i.set_command(String::new()), None);
    assert_eq!(i.set_command("ls".to_string()), Some(()));
    assert_eq!(i.get_command(), "ls");
    assert!(!i.is_empty());
}

#[test]
fn arguments_accumulate() {
    let mut i = instruction("ls", &["-l"]);
    i.add_args(strings(&["-a", "x"]));
    assert_eq!(i.get_args(), strings(&["-l", "-a", "x"]));
    assert_eq!(i.get_len_args(), 3);
    i.clear();
    assert_eq!(i.get_command(), "");
    assert_eq!(i.get_len_args(), 0);
}

#[test]
fn tokens_fill_an_instruction() {
    let mut i = Instruction::new();
    assert!(i.can_add_cmd_or_inquote(&cmd("ls  -l -a")));
    i.add_cmd_or_inquote_token(cmd("ls  -l -a"));
    assert_eq!(i.get_command(), "ls");
    assert_eq!(i.get_args(), strings(&["-l", "-a"]));
    i.add_cmd_or_inquote_token(Token::get_inquote("\"a b\"".to_string()));
    i.add_cmd_or_inquote_token(cmd("x y"));
    assert_eq!(i.get_args(), strings(&["-l", "-a", "a b", "x", "y"]));
    let mut j = Instruction::new();
    j.add_cmd_or_inquote_token(Token::get_inquote("'my prog'".to_string()));
    assert_eq!(j.get_command(), "my prog");
}

#[test]
fn tokens_that_cannot_be_added() {
    let i = Instruction::new();
    assert!(!i.can_add_cmd_or_inquote(&cmd("   ")));
    assert!(!i.can_add_cmd_or_inquote(&Token::get_pipe()));
    assert!(!i.can_add_cmd_or_inquote(&Token::get_variable("A".to_string())));
    assert!(!i.can_add_cmd_or_inquote(&Token::get_inquote("'".to_string())));
    let mut m = Instruction::new();
    m.add_args(strings(&["x"]));
    assert!(m.is_malformed());
    assert!(!m.can_add_cmd_or_inquote(&cmd("ls")));
}

#[test]
fn instruction_from_tokens() {
    let toks = vec![cmd("echo hi"), Token::get_variable("X".to_string()), Token::get_inquote("'q'".to_string())];
    let i = Instruction::from_token(&toks).unwrap();
    assert_eq!(i.get_command(), "echo");
    assert_eq!(i.get_args(), strings(&["hi", "'q'"]));
    assert_eq!(Instruction::from_token(&[]).err(), Some(TokenError::NoToken));
    assert_eq!(
        Instruction::from_token(&[cmd("a"), Token::get_pipe()]).err(),
        Some(TokenError::OnlyNotOperatorToken(TokenOperator::Logic(TokenLogic::Pipe)))
    );
}

#[test]
fn input_and_output_are_taken_back() {
    let mut i = instruction("cat", &[]);
    i.set_io(Input::File("in".to_string()), Output::FileAppend("out".to_string()));
    assert_eq!(i.get_i(), &Input::File("in".to_string()));
    assert_eq!(i.take_i_put_stdin(), Input::File("in".to_string()));
    assert_eq!(i.get_i(), &Input::Stdin);
    assert_eq!(i.take_o_put_stdout(), Output::FileAppend("out".to_string()));
    assert_eq!(i.get_o(), &Output::Stdout);
    i.set_i(Input::Pipe);
    i.set_o(Output::FileOverwrite("f".to_string()));
    assert_eq!(i.get_i().duplicate(), Input::Pipe);
    assert_eq!(i.get_o().duplicate(), Output::FileOverwrite("f".to_string()));
}

#[test]
fn reading_standard_input_reads_the_arguments() {
    assert_eq!(Input::read_from_stdout(strings(&["a", "b c"])), "a b c");
    assert_eq!(Input::read_from_stdout(Vec::new()), "");
}

#[test]
fn redirections_apply_to_the_instruction() {
    assert!(TokenRedirection::is_redirectable(&cmd("in.txt")));
    assert!(TokenRedirection::is_redirectable(&Token::get_inquote("'f'".to_string())));
    assert!(!TokenRedirection::is_redirectable(&cmd("  ")));
    assert!(!TokenRedirection::is_redirectable(&Token::get_pipe()));
    assert_eq!(TokenRedirection::redirection_file(&cmd("in.txt extra")), "in.txt");

    let mut i = instruction("cat", &[]);
    TokenRedirection::apply_redirection(&mut i, TokenRedirection::RedirectionInput, cmd("in.txt extra"), true);
    assert_eq!(i.get_args(), strings(&["extra", "extra"]));
    assert_eq!(i.get_i(), &Input::File("in.txt".to_string()));

    let mut i = instruction("cat", &[]);
    TokenRedirection::apply_redirection(&mut i, TokenRedirection::RedirectionInput, cmd("in.txt extra"), false);
    assert_eq!(i.get_args(), strings(&["extra"]));
    assert_eq!(i.get_i(), &Input::File("in.txt".to_string()));

    let mut i = instruction("ls", &[]);
    TokenRedirection::apply_redirection(
        &mut i,
        TokenRedirection::RedirectionOutputAppend,
        Token::get_inquote("\"out file\"".to_string()),
        true,
    );
    assert_eq!(i.get_o(), &Output::FileAppend("\"out file\"".to_string()));

    let mut i = instruction("ls", &[]);
    TokenRedirection::apply_redirection(&mut i, TokenRedirection::RedirectionOutputOverwrite, cmd("o"), false);
    assert_eq!(i.get_o(), &Output::FileOverwrite("o".to_string()));
}

#[test]
fn building_a_line() {
    let toks = get_token("cat < in.txt | grep x > out && echo done").unwrap();
    let requests = redirection_requests(&toks);
    assert_eq!(
        requests,
        vec![
            (TokenRedirection::RedirectionInput, "in.txt".to_string()),
            (TokenRedirection::RedirectionOutputOverwrite, "out".to_string()),
        ]
    );
    let items = build_instructions(toks, &vec![true, true]);
    assert_eq!(
        describe(&items),
        vec![
            "cat [] File(\"in.txt\") Stdout".to_string(),
            "|".to_string(),
            "grep [\"x\"] Stdin FileOverwrite(\"out\")".to_string(),
            "&&".to_string(),
            "echo [\"done\"] Stdin Stdout".to_string(),
        ]
    );
}

#[test]
fn building_refuses_what_cannot_be_built() {
    let toks = vec![cmd("ls"), Token::get_variable("A".to_string())];
    assert!(try_build_instructions(&toks, &Vec::new()).is_none());
    let toks = vec![cmd("ls"), Token::get_redirection_output_overwrite(), Token::get_pipe()];
    assert!(try_build_instructions(&toks, &vec![true]).is_none());
    // a redirection with no outcome given
    let toks = vec![cmd("ls"), Token::get_redirection_output_overwrite(), cmd("f")];
    assert!(try_build_instructions(&toks, &Vec::new()).is_none());
}

#[test]
fn a_redirection_at_the_end_is_dropped() {
    let toks = vec![cmd("ls"), Token::get_redirection_output_overwrite()];
    assert!(redirection_requests(&toks).is_empty());
    let items = try_build_instructions(&toks, &Vec::new()).unwrap();
    assert_eq!(describe(&items), vec!["ls [] Stdin Stdout".to_string()]);
}

#[test]
fn an_operator_ends_the_instruction_even_when_empty() {
    let toks = vec![cmd("a"), Token::get_and(), Token::get_background()];
    let items = try_build_instructions(&toks, &Vec::new()).unwrap();
    assert_eq!(
        describe(&items),
        vec![
            "a [] Stdin Stdout".to_string(),
            "&&".to_string(),
            " [] Stdin Stdout".to_string(),
            "&".to_string(),
        ]
    );
}

fn items_of(line: &str) -> Vec<InstructionOrToken> {
    let toks = get_token(line).unwrap();
    build_instructions(toks, &Vec::new())
}

#[test]
fn lines_split_at_and_or() {
    let (runs, ops) = split_and_or(items_of("a | b && c || d"));
    assert_eq!(runs.len(), 3);
    assert_eq!(ops, vec![TokenLogic::And, TokenLogic::Or]);
    assert_eq!(describe(&runs[0]), vec!["a [] Stdin Stdout".to_string(), "|".to_string(), "b [] Stdin Stdout".to_string()]);
    assert_eq!(describe(&runs[2]), vec!["d [] Stdin Stdout".to_string()]);
    let (runs, ops) = split_and_or(items_of("a &&"));
    assert_eq!(runs.len(), 2);
    assert!(runs[1].is_empty());
    assert_eq!(ops, vec![TokenLogic::And]);
}

#[test]
fn runs_split_at_background() {
    let runs = split_background(items_of("a & b | c"));
    assert_eq!(runs.len(), 2);
    assert_eq!(describe(&runs[0]), vec!["a [] Stdin Stdout".to_string()]);
    assert_eq!(runs[1].len(), 3);
    let runs = split_background(items_of("a &"));
    assert_eq!(runs.len(), 2);
    assert!(runs[1].is_empty());
}

#[test]
fn and_or_chains() {
    let ops = vec![TokenLogic::And, TokenLogic::Or];
    assert_eq!(chain_start(&ops, false), ChainStep::Run(0));
    assert_eq!(chain_start(&Vec::new(), true), ChainStep::Done(0));
    // `a && ...`: goes on after a success, stops after a failure
    assert_eq!(chain_step(&ops, false, 0, 0), ChainStep::Run(1));
    assert_eq!(chain_step(&ops, false, 0, 3), ChainStep::Done(3));
    // `... || d`: goes on after a failure, stops after a success
    assert_eq!(chain_step(&ops, false, 1, 1), ChainStep::Run(2));
    assert_eq!(chain_step(&ops, false, 1, 0), ChainStep::Done(0));
    // after the last run
    assert_eq!(chain_step(&ops, false, 2, 7), ChainStep::Done(7));
    // an empty last run is not run
    assert_eq!(chain_step(&vec![TokenLogic::And], true, 0, 0), ChainStep::Done(0));
}

#[test]
fn pipelines_are_wired() {
    let items = items_of("a | b x | c");
    assert!(check_pipeline(&items));
    let ins = pipe(items);
    let d: Vec<String> = ins.iter().map(describe_instruction).collect();
    assert_eq!(
        d,
        vec![
            "a [] Stdin Pipe".to_string(),
            "b [\"x\"] Pipe Pipe".to_string(),
            "c [] Pipe Stdout".to_string(),
        ]
    );
}

#[test]
fn a_trailing_pipe_still_pipes() {
    let items = items_of("a |");
    assert!(check_pipeline(&items));
    let ins = pipe(items);
    let d: Vec<String> = ins.iter().map(describe_instruction).collect();
    assert_eq!(d, vec!["a [] Stdin Pipe".to_string()]);
}

#[test]
fn other_operators_do_not_form_a_pipeline() {
    assert!(!check_pipeline(&items_of("a && b")));
    assert!(check_pipeline(&items_of("a")));
}

#[test]
fn the_status_of_a_pipeline() {
    assert_eq!(pipeline_status(IsSpawn::NOTSPAWN, Some(3)), 3);
    assert_eq!(pipeline_status(IsSpawn::NOTSPAWN, None), 0);
    assert_eq!(pipeline_status(IsSpawn::SPAWN, Some(3)), 0);
}
