use rust_shell::pattern::{
    expand_command, glob_patterns, expand_partial, glob_parts, has_regex_expression, match_braces, match_brackets,
    match_regex_expression,
};
use rust_shell::token::Token;

fn chars(s: &str) -> Vec<char> {
    s.chars().collect()
}

fn strings(v: &[&str]) -> Vec<String> {
    v.iter().map(|s| s.to_string()).collect()
}

fn matches(p: &str, t: &str) -> bool {
    match_regex_expression(&chars(p), &chars(t))
}

#[test]
fn regex_characters_are_detected() {
    assert!(has_regex_expression("*.rs"));
    assert!(has_regex_expression("a?"));
    assert!(has_regex_expression("[ab]"));
    assert!(has_regex_expression("{a,b}"));
    assert!(!has_regex_expression("main.rs"));
    assert!(!has_regex_expression(""));
}

#[test]
fn braces_expand_to_alternatives() {
    assert_eq!(match_braces("a{b,c}d"), strings(&["abd", "acd"]));
    assert_eq!(match_braces("x{a,b}{1,2}"), strings(&["xa1", "xa2", "xb1", "xb2"]));
    assert_eq!(match_braces("{,x}"), strings(&["", "x"]));
}

#[test]
fn text_without_a_brace_pair_stands_for_itself() {
    assert_eq!(match_braces("abc"), strings(&["abc"]));
    assert_eq!(match_braces("a{b"), strings(&["a{b"]));
    assert_eq!(match_braces("a}b{"), strings(&["a}b{"]));
}

#[test]
fn brackets_give_the_position_after_the_set() {
    assert_eq!(match_brackets(&chars("[ab]c"), &chars("b")), Some(4));
    assert_eq!(match_brackets(&chars("[ab]c"), &chars("z")), None);
    assert_eq!(match_brackets(&chars("[ab"), &chars("a")), None);
    assert_eq!(match_brackets(&chars("[ab]"), &chars("")), None);
}

#[test]
fn wildcards_match() {
    assert!(matches("*.rs", "main.rs"));
    assert!(!matches("*.rs", "main.rc"));
    assert!(matches("?at", "cat"));
    assert!(!matches("?at", "at"));
    assert!(matches("[ch]at", "hat"));
    assert!(!matches("[ch]at", "bat"));
    assert!(matches("a*b*c", "aXXbYc"));
    assert!(matches("", ""));
    assert!(!matches("", "a"));
    // a `[` with no closing `]` matches itself
    assert!(matches("[a", "[a"));
}

#[test]
fn a_star_matches_everything() {
    assert!(matches("*", ""));
    assert!(matches("*", "anything at all"));
}

#[test]
fn a_literal_pattern_matches_only_itself() {
    assert!(matches("main.rs", "main.rs"));
    assert!(!matches("main.rs", "main.r"));
    assert!(!matches("main.rs", "main.rsx"));
}

#[test]
fn glob_parts_drop_empty_pieces() {
    assert_eq!(glob_parts("src//*.rs"), strings(&["src", "*.rs"]));
    assert_eq!(glob_parts("/etc/*"), strings(&["etc", "*"]));
    assert_eq!(glob_parts("*"), strings(&["*"]));
}

#[test]
fn expansion_step_lists_matching_entries() {
    let candidates = strings(&["."]);
    let listings = vec![Some(strings(&["main.rs", "lib.rs", "notes.txt"]))];
    assert_eq!(
        expand_partial(&candidates, "*.rs", &listings),
        strings(&["./main.rs", "./lib.rs"])
    );
}

#[test]
fn expansion_step_joins_plain_pieces_and_skips_unreadable_directories() {
    let candidates = strings(&["a", "b/"]);
    let listings = vec![None, None];
    assert_eq!(expand_partial(&candidates, "src", &listings), strings(&["a/src", "b/src"]));
    assert_eq!(expand_partial(&candidates, "*", &listings), Vec::<String>::new());
}

#[test]
fn expansion_step_expands_braces_first() {
    let candidates = strings(&["."]);
    let listings = vec![Some(strings(&["x1", "y2"]))];
    assert_eq!(
        expand_partial(&candidates, "{x,y}?", &listings),
        strings(&["./x1", "./y2"])
    );
    assert_eq!(expand_partial(&candidates, "{a,b}", &listings), strings(&["./a", "./b"]));
}

#[test]
fn pattern_tokens_are_replaced_in_place() {
    let tokens = vec![
        Token::get_command("ls".to_string()),
        Token::get_pipe(),
        Token::get_command("*.rs".to_string()),
        Token::get_inquote("'*'".to_string()),
    ];
    assert_eq!(glob_patterns(&tokens), strings(&["*.rs"]));
    let listing = vec![Some(strings(&["a.rs", "b.txt", "c.rs"]))];
    let paths = expand_partial(&strings(&["."]), "*.rs", &listing);
    assert_eq!(
        expand_command(tokens, &vec![paths]),
        vec![
            Token::get_command("ls".to_string()),
            Token::get_pipe(),
            Token::get_command("./a.rs".to_string()),
            Token::get_command("./c.rs".to_string()),
            Token::get_inquote("'*'".to_string()),
        ]
    );
}

#[test]
fn a_pattern_matching_nothing_disappears_and_plain_tokens_stay() {
    let tokens = vec![Token::get_command("a?".to_string()), Token::get_command("b".to_string())];
    assert_eq!(glob_patterns(&tokens).len(), 1);
    assert_eq!(expand_command(tokens, &vec![Vec::new()]), vec![Token::get_command("b".to_string())]);
    let plain = vec![Token::get_command("ls -l".to_string()), Token::get_and()];
    assert!(glob_patterns(&plain).is_empty());
    assert_eq!(expand_command(plain.clone(), &Vec::new()), plain);
}
