use rust_shell::executer::{dispatch, Dispatch, IsSpawn};
use rust_shell::instruction::{Input, Instruction, Output};
use rust_shell::shell_error::ShellError;
use rust_shell::shell_variables::{file_completion_dir, ShellCommands, ShellVariables};
use rust_shell::token::Token;

fn strings(v: &[&str]) -> Vec<String> {
    v.iter().map(|s| s.to_string()).collect()
}

fn store() -> ShellVariables {
    ShellVariables::new(
        "PATH = /bin:/usr/bin\nEDITOR=vim\nnoequals\n".to_string(),
        "/home/u".to_string(),
        Some("u".to_string()),
        Some("/home/u".to_string()),
    )
}

fn instruction(command: &str, args: &[&str]) -> Instruction {
    Instruction::from(command.to_string(), strings(args), Input::Stdin, Output::Stdout).unwrap()
}

#[test]
fn start_up_values() {
    let v = store();
    assert_eq!(v.look_into_variables("PATH"), Some("/bin:/usr/bin"));
    assert_eq!(v.look_into_variables("EDITOR"), Some("vim"));
    assert_eq!(v.look_into_variables("noequals"), None);
    assert_eq!(v.look_into_variables("PWD"), Some("/home/u"));
    assert_eq!(v.look_into_variables("OLDPWD"), Some("/home/u"));
    assert_eq!(v.look_into_variables("USER"), Some("u"));
    assert_eq!(v.look_into_variables("SHELL"), Some("rsh"));
    assert_eq!(v.look_into_variables("?"), Some("0"));
    assert_eq!(v.look_into_variables("HOME"), Some("/home/u"));
    assert_eq!(v.look_into_variables("HISTORY"), Some(""));
    assert_eq!(v.get_pwd(), "/home/u");
    assert_eq!(v.get_old_pwd(), "/home/u");
    assert_eq!(v.get_user(), "u");
    assert_eq!(v.get_status(), 0);
    assert_eq!(v.get_history(), Vec::<String>::new());
}

#[test]
fn start_up_without_user_or_home() {
    let v = ShellVariables::new(String::new(), "/".to_string(), None, None);
    assert_eq!(v.get_user(), "Unknown");
    assert_eq!(v.look_into_variables("HOME"), None);
    assert_eq!(v.look_into_variables("PATH"), None);
}

#[test]
fn later_lines_of_the_start_up_file_win() {
    let v = ShellVariables::new("A=1\r\nA = 2\n".to_string(), "/".to_string(), None, None);
    assert_eq!(v.look_into_variables("A"), Some("2"));
}

#[test]
fn status_is_read_back() {
    let mut v = store();
    v.update_status(-12);
    assert_eq!(v.get_status(), -12);
    assert_eq!(v.look_into_variables("?"), Some("-12"));
    v.update_status(2147483647);
    assert_eq!(v.get_status(), 2147483647);
    v.update_status(-2147483648);
    assert_eq!(v.get_status(), -2147483648);
}

#[test]
fn history_comes_back_most_recent_first() {
    let mut v = store();
    v.update_history("ls -l\n");
    v.update_history("  pwd  ");
    v.update_history("");
    assert_eq!(v.look_into_variables("HISTORY"), Some("ls -l\npwd\n"));
    assert_eq!(v.get_history(), strings(&["pwd", "ls -l"]));
}

#[test]
fn changing_directory_keeps_the_previous_one() {
    let mut v = store();
    v.update_pwd("/tmp".to_string());
    assert_eq!(v.get_pwd(), "/tmp");
    assert_eq!(v.get_old_pwd(), "/home/u");
    v.update_pwd("/var".to_string());
    assert_eq!(v.get_old_pwd(), "/tmp");
}

#[test]
fn export_defines_internal_variables() {
    let mut v = store();
    let mut ins = instruction("export", &["A=1"]);
    assert_eq!(v.export(&mut ins), 0);
    assert_eq!(v.look_into_variables("A"), Some("1"));
    let mut ins = instruction("export", &["B", "=", "two", "words", "\\", "C=3"]);
    assert_eq!(v.export(&mut ins), 0);
    assert_eq!(v.look_into_variables("B"), Some("two words"));
    assert_eq!(v.look_into_variables("C"), Some("3"));
    assert_eq!(ins.get_args(), strings(&["B", "=", "two", "words", "\\", "C=3"]));
}

#[test]
fn export_ignores_incomplete_assignments() {
    let mut v = store();
    let mut ins = instruction("export", &["=x", "D=", "E"]);
    assert_eq!(v.export(&mut ins), 0);
    assert_eq!(v.look_into_variables("x"), None);
    assert_eq!(v.look_into_variables("D"), None);
    assert_eq!(v.look_into_variables("E"), None);
}

#[test]
fn the_shell_table_is_looked_up_first() {
    let mut v = store();
    let mut ins = instruction("export", &["PWD=/elsewhere"]);
    v.export(&mut ins);
    assert_eq!(v.look_into_variables("PWD"), Some("/home/u"));
}

#[test]
fn variables_expand() {
    let v = store();
    let toks = vec![
        Token::get_command("echo".to_string()),
        Token::get_variable("HOME".to_string()),
        Token::get_inquote("'$USER'".to_string()),
        Token::get_inquote("\"hi $USER\"".to_string()),
        Token::get_inquote("\"$USER x\"".to_string()),
    ];
    assert_eq!(
        v.expand_variables(toks).unwrap(),
        vec![
            Token::get_command("echo".to_string()),
            Token::get_command("/home/u".to_string()),
            Token::get_inquote("'$USER'".to_string()),
            Token::get_inquote("\"hi u$\"".to_string()),
            Token::get_inquote("\"u$ x\"".to_string()),
        ]
    );
}

#[test]
fn an_unknown_variable_is_refused() {
    let v = store();
    let toks = vec![Token::get_command("echo".to_string()), Token::get_variable("NOPE".to_string())];
    assert_eq!(v.expand_variables(toks), Err(ShellError::VarNotFound("NOPE".to_string())));
}

#[test]
fn variable_references_follow_each_other() {
    let v = store();
    let chars: Vec<char> = "USER$SHELL".chars().collect();
    let mut pos = 0;
    assert_eq!(v.parse_variables(&chars, &mut pos, None), Ok("ursh".to_string()));
    assert_eq!(pos, chars.len());
    let chars: Vec<char> = "USER rest".chars().collect();
    let mut pos = 0;
    assert_eq!(v.parse_variables(&chars, &mut pos, None), Ok("u$".to_string()));
    assert_eq!(pos, 4);
}

#[test]
fn pushing_a_variable_value() {
    let v = store();
    let mut s = "x=".to_string();
    assert_eq!(v.push_in_var_or(&mut s, "USER".to_string()), Ok(()));
    assert_eq!(s, "x=u");
    assert_eq!(v.push_in_var_or(&mut s, String::new()), Ok(()));
    assert_eq!(s, "x=u$");
    assert_eq!(
        v.push_in_var_or(&mut s, "NOPE".to_string()),
        Err(ShellError::VarNotFound("NOPE".to_string()))
    );
    assert_eq!(s, "x=u$");
}

#[test]
fn echo_writes_its_arguments() {
    let v = store();
    assert_eq!(v.echo(&instruction("echo", &["a", "b"])), "a b \n");
    assert_eq!(v.echo(&instruction("echo", &["-n", "a"])), "a ");
    assert_eq!(v.echo(&instruction("echo", &[])), "\n");
    let piped = Instruction::from("echo".to_string(), strings(&["a"]), Input::Pipe, Output::Stdout).unwrap();
    assert_eq!(v.echo(&piped), "\n");
}

#[test]
fn where_cd_goes() {
    let v = store();
    assert_eq!(v.cd_target(&instruction("cd", &[])), Ok("/home/u".to_string()));
    assert_eq!(v.cd_target(&instruction("cd", &["/tmp"])), Ok("/tmp".to_string()));
    assert_eq!(
        v.cd_target(&instruction("cd", &["a", "b"])),
        Err("cd needs 0 or 1 arguments found: 2 arguments".to_string())
    );
    let no_home = ShellVariables::new(String::new(), "/".to_string(), None, None);
    assert_eq!(no_home.cd_target(&instruction("cd", &[])), Err("cd: $HOME not set".to_string()));
}

#[test]
fn commands_are_found_in_path() {
    let v = store();
    assert_eq!(v.path_dirs(), strings(&["/bin", "/usr/bin"]));
    assert_eq!(v.look_for_path("ls", &vec![false, true]), Ok("/usr/bin/ls".to_string()));
    assert_eq!(v.look_for_path("ls", &vec![true, true]), Ok("/bin/ls".to_string()));
    assert_eq!(
        v.look_for_path("ls", &vec![false, false]),
        Err(ShellError::CommandError("command ls not found".to_string()))
    );
    assert_eq!(v.look_for_path("./a.out", &vec![true]), Ok("./a.out".to_string()));
    assert_eq!(
        v.look_for_path("./a.out", &vec![false]),
        Err(ShellError::CommandError("command ./a.out not found".to_string()))
    );
}

#[test]
fn command_completion() {
    let v = store();
    let listings = vec![strings(&["grep", "ls"]), strings(&["groups", "git"])];
    assert_eq!(v.look_for_path_starting_with("gr", &listings), strings(&["grep", "groups"]));
    assert_eq!(v.look_for_path_starting_with("", &listings), strings(&["grep", "ls", "groups", "git"]));
}

#[test]
fn file_completion() {
    let v = store();
    let entries = vec![
        ("main.rs".to_string(), false),
        ("macros".to_string(), true),
        ("lib.rs".to_string(), false),
    ];
    assert_eq!(
        v.look_for_file_or_dir_starting_with("src/ma", &entries),
        strings(&["src/main.rs", "src/macros/"])
    );
    assert_eq!(
        v.look_for_file_or_dir_starting_with("ma", &entries),
        strings(&["./main.rs", "./macros/"])
    );
    assert_eq!(file_completion_dir("a/b/c"), ("a/b/".to_string(), "c".to_string()));
    assert_eq!(file_completion_dir("abc"), (".".to_string(), "abc".to_string()));
}

#[test]
fn builtins_are_known_by_name() {
    assert_eq!(ShellCommands::from_name("echo"), Some(ShellCommands::ECHO));
    assert_eq!(ShellCommands::from_name("cd"), Some(ShellCommands::CD));
    assert_eq!(ShellCommands::from_name("exit"), Some(ShellCommands::EXIT));
    assert_eq!(ShellCommands::from_name("pwd"), Some(ShellCommands::PWD));
    assert_eq!(ShellCommands::from_name("export"), Some(ShellCommands::EXPORT));
    assert_eq!(ShellCommands::from_name("history"), Some(ShellCommands::HISTORY));
    assert_eq!(ShellCommands::from_name("rsh"), Some(ShellCommands::RSH));
    assert_eq!(ShellCommands::from_name("ls"), None);
    assert_eq!(ShellCommands::from_name("ech"), None);
}

#[test]
fn builtins_do_nothing_in_the_background() {
    assert_eq!(dispatch("cd", IsSpawn::NOTSPAWN), Dispatch::Builtin(ShellCommands::CD));
    assert_eq!(dispatch("cd", IsSpawn::SPAWN), Dispatch::Skipped);
    assert_eq!(dispatch("ls", IsSpawn::SPAWN), Dispatch::External);
    assert_eq!(dispatch("ls", IsSpawn::NOTSPAWN), Dispatch::External);
}
