//! From a command line to tokens: the tokenizer, the check that no two
//! operators follow each other, and the split at `;`.
use vstd::prelude::*;
use crate::shell_error::{ShellError, SpecShellError};
use crate::text::{chars_of, copy_range, trim, trim_bounds, string_from_range};
use crate::instruction::{
    Instruction, SpecInstruction, spec_add_cmd_or_inquote, spec_apply_redirection, redirectable,
    redirection_target, malformed, empty_instruction,
};
use crate::token::{
    Token, SpecToken, TokenOperator, TokenNotOperator, TokenLogic, TokenRedirection, tokens_view, logic,
    redirection, operator_char, quote_char, is_operator, is_quote, is_var,
};

verus! {

/// The tokenizer's handling of the command text read so far when a token
/// boundary comes: if the text is not blank, it becomes a command token
/// (trimmed) and is cleared; blank text is kept as it is.
pub open spec fn flush_command(cmd: Seq<char>, toks: Seq<SpecToken>) -> (Seq<char>, Seq<SpecToken>) {
    if trim(cmd).len() > 0 {
        (Seq::empty(), toks.push(SpecToken::Command(trim(cmd))))
    } else {
        (cmd, toks)
    }
}

/// The first position at or after `j` that holds an operator character, or
/// the end of `s`: where the name of a variable stops.
pub open spec fn var_end(s: Seq<char>, j: int) -> int
    decreases s.len() - j,
{
    if j >= s.len() {
        s.len() as int
    } else if operator_char(s[j]) {
        j
    } else {
        var_end(s, j + 1)
    }
}

/// The first position at or after `j` that holds `q`, if any.
pub open spec fn quote_close(s: Seq<char>, j: int, q: char) -> Option<int>
    decreases s.len() - j,
{
    if j >= s.len() {
        None
    } else if s[j] == q {
        Some(j)
    } else {
        quote_close(s, j + 1, q)
    }
}

/// The operator token that starts at position `i` of `s`, and how many
/// characters it takes: `>>`, `||` and `&&` take two.
pub open spec fn operator_at(s: Seq<char>, i: int) -> (SpecToken, int) {
    let c = s[i];
    let doubled = i + 1 < s.len() && s[i + 1] == c;
    if c == '>' {
        if doubled {
            (redirection(TokenRedirection::RedirectionOutputAppend), 2)
        } else {
            (redirection(TokenRedirection::RedirectionOutputOverwrite), 1)
        }
    } else if c == '<' {
        (redirection(TokenRedirection::RedirectionInput), 1)
    } else if c == '|' {
        if doubled {
            (logic(TokenLogic::Or), 2)
        } else {
            (logic(TokenLogic::Pipe), 1)
        }
    } else if c == '&' {
        if doubled {
            (logic(TokenLogic::And), 2)
        } else {
            (logic(TokenLogic::Background), 1)
        }
    } else {
        (logic(TokenLogic::SemiColon), 1)
    }
}

pub proof fn lemma_var_end_bounds(s: Seq<char>, j: int)
    requires
        0 <= j <= s.len(),
    ensures
        j <= var_end(s, j) <= s.len(),
    decreases s.len() - j,
{
    if j < s.len() && !operator_char(s[j]) {
        lemma_var_end_bounds(s, j + 1);
    }
}

pub proof fn lemma_quote_close_bounds(s: Seq<char>, j: int, q: char)
    requires
        0 <= j,
    ensures
        quote_close(s, j, q) matches Some(k) ==> j <= k < s.len() && s[k] == q,
    decreases s.len() - j,
{
    if j < s.len() && s[j] != q {
        lemma_quote_close_bounds(s, j + 1, q);
    }
}

/// Tokenizes `s` from position `i`, with `cmd` the command text read so far
/// and `toks` the tokens produced so far.
///
/// - An operator character ends the command text and gives an operator.
/// - `$` ends the command text; the characters after it up to the next
///   operator character (or the end) name a variable, which is trimmed; with
///   no such characters the token is the command `$`.
/// - A quote ends the command text and opens quoted text, which runs to the
///   next occurrence of the same quote; with none, the line is refused.
/// - Any other character, spaces included, joins the command text.
pub open spec fn lex(s: Seq<char>, i: int, cmd: Seq<char>, toks: Seq<SpecToken>) -> Result<
    Seq<SpecToken>,
    SpecShellError,
>
    decreases s.len() - i,
{
    if i < 0 || i >= s.len() {
        Ok(flush_command(cmd, toks).1)
    } else {
        let c = s[i];
        let (cmd2, toks2) = flush_command(cmd, toks);
        if operator_char(c) {
            let (t, n) = operator_at(s, i);
            if i + n <= s.len() {
                lex(s, i + n, cmd2, toks2.push(t))
            } else {
                Ok(toks2.push(t))
            }
        } else if c == '$' {
            let e = var_end(s, i + 1);
            let name = s.subrange(i + 1, e);
            let t = if name.len() == 0 {
                SpecToken::Command(seq!['$'])
            } else {
                SpecToken::Variable(trim(name))
            };
            if i < e <= s.len() {
                lex(s, e, cmd2, toks2.push(t))
            } else {
                Ok(toks2.push(t))
            }
        } else if quote_char(c) {
            match quote_close(s, i + 1, c) {
                None => Err(SpecShellError::QuoteNotClosed(s.subrange(i, s.len() as int))),
                Some(k) => if i < k < s.len() {
                    lex(s, k + 1, cmd2, toks2.push(SpecToken::Inquote(trim(s.subrange(i, k + 1)))))
                } else {
                    Ok(toks2)
                },
            }
        } else {
            lex(s, i + 1, cmd.push(c), toks)
        }
    }
}

/// The tokens of a command line: a line that starts with an operator
/// character is refused, otherwise it is tokenized as `lex` says.
pub open spec fn spec_get_token(s: Seq<char>) -> Result<Seq<SpecToken>, SpecShellError> {
    if s.len() > 0 && operator_char(s[0]) {
        Err(SpecShellError::CommandFirst)
    } else {
        lex(s, 0, Seq::empty(), Seq::empty())
    }
}

/// Whether some operator is directly followed by another.
pub open spec fn adjacent_operators(s: Seq<SpecToken>) -> bool {
    exists|i: int| 0 <= i < s.len() - 1 && s[i] is Op && #[trigger] s[i + 1] is Op
}

/// The runs of tokens between semicolons, empty runs included; there is
/// always at least one.
pub open spec fn split_semicolons(s: Seq<SpecToken>) -> Seq<Seq<SpecToken>>
    decreases s.len(),
{
    if s.len() == 0 {
        seq![Seq::empty()]
    } else {
        let r = split_semicolons(s.drop_last());
        if s.last() == logic(TokenLogic::SemiColon) {
            r.push(Seq::empty())
        } else {
            r.update(r.len() - 1, r.last().push(s.last()))
        }
    }
}

/// The instructions of a line: the runs between semicolons, without the
/// last one when it is empty.
pub open spec fn spec_divide_tokens(s: Seq<SpecToken>) -> Seq<Seq<SpecToken>> {
    let p = split_semicolons(s);
    if p.last().len() == 0 {
        p.drop_last()
    } else {
        p
    }
}

/// The mathematical values of groups of tokens.
pub open spec fn groups_view(v: Seq<Vec<Token>>) -> Seq<Seq<SpecToken>> {
    v.map_values(|g: Vec<Token>| tokens_view(g@))
}

pub proof fn lemma_split_semicolons_nonempty(s: Seq<SpecToken>)
    ensures
        split_semicolons(s).len() >= 1,
    decreases s.len(),
{
    if s.len() > 0 {
        lemma_split_semicolons_nonempty(s.drop_last());
    }
}

/// Appends a token.
fn push_token(toks: &mut Vec<Token>, t: Token)
    ensures
        tokens_view(final(toks)@) == tokens_view(old(toks)@).push(t@),
{
    toks.push(t);
    proof {
        assert(tokens_view(toks@) =~= tokens_view(old(toks)@).push(t@));
    }
}

/// Turns the command text read so far into a command token if it is not
/// blank, as `flush_command` says.
fn flush(cmd: &mut Vec<char>, toks: &mut Vec<Token>)
    ensures
        (final(cmd)@, tokens_view(final(toks)@)) == flush_command(old(cmd)@, tokens_view(old(toks)@)),
{
    let (a, b) = trim_bounds(cmd);
    if a < b {
        let text = string_from_range(cmd, a, b);
        push_token(toks, Token::get_command(text));
        *cmd = Vec::new();
    }
}

/// The string `trim(v[from..to])`.
fn trimmed_range(v: &Vec<char>, from: usize, to: usize) -> (res: String)
    requires
        from <= to <= v.len(),
    ensures
        res@ == trim(v@.subrange(from as int, to as int)),
{
    let part = copy_range(v, from, to);
    let (a, b) = trim_bounds(&part);
    string_from_range(&part, a, b)
}

/// Splits a command line into tokens, as `spec_get_token` says.
pub fn get_token(command: &str) -> (res: Result<Vec<Token>, ShellError>)
    ensures
        match res {
            Ok(toks) => spec_get_token(command@) == Ok::<_, SpecShellError>(tokens_view(toks@)),
            Err(e) => spec_get_token(command@) == Err::<Seq<SpecToken>, _>(e@),
        },
{
    let s = chars_of(command);
    let n = s.len();
    if n > 0 && is_operator(s[0]) {
        return Err(ShellError::CommandFirst);
    }
    let mut tokens: Vec<Token> = Vec::new();
    let mut cmd: Vec<char> = Vec::new();
    let mut i: usize = 0;
    proof {
        assert(tokens_view(tokens@) =~= Seq::<SpecToken>::empty());
    }
    while i < n
        invariant
            n == s.len(),
            s@ == command@,
            i <= n,
            spec_get_token(s@) == lex(s@, i as int, cmd@, tokens_view(tokens@)),
        decreases n - i,
    {
        let c = s[i];
        let ghost g_cmd = cmd@;
        let ghost g_toks = tokens_view(tokens@);
        if is_operator(c) {
            flush(&mut cmd, &mut tokens);
            let doubled = i + 1 < n && s[i + 1] == c;
            let t;
            let mut width: usize = 1;
            if c == '>' {
                if doubled {
                    t = Token::get_redirection_output_append();
                    width = 2;
                } else {
                    t = Token::get_redirection_output_overwrite();
                }
            } else if c == '<' {
                t = Token::get_redirection_input();
            } else if c == '|' {
                if doubled {
                    t = Token::get_or();
                    width = 2;
                } else {
                    t = Token::get_pipe();
                }
            } else if c == '&' {
                if doubled {
                    t = Token::get_and();
                    width = 2;
                } else {
                    t = Token::get_background();
                }
            } else {
                t = Token::get_semi_colon();
            }
            proof {
                assert((t@, width as int) == operator_at(s@, i as int));
            }
            push_token(&mut tokens, t);
            i = i + width;
        } else if is_var(c) {
            flush(&mut cmd, &mut tokens);
            let mut j = i + 1;
            proof {
                lemma_var_end_bounds(s@, i + 1);
            }
            while j < n && !is_operator(s[j])
                invariant
                    n == s.len(),
                    i < j <= n,
                    var_end(s@, i + 1) == var_end(s@, j as int),
                decreases n - j,
            {
                j = j + 1;
            }
            proof {
                lemma_var_end_bounds(s@, j as int);
            }
            if j == i + 1 {
                let mut dollar = String::new();
                crate::text::push_char(&mut dollar, '$');
                proof {
                    assert(dollar@ =~= seq!['$']);
                }
                push_token(&mut tokens, Token::get_command(dollar));
            } else {
                let name = trimmed_range(&s, i + 1, j);
                push_token(&mut tokens, Token::get_variable(name));
            }
            i = j;
        } else if is_quote(c) {
            flush(&mut cmd, &mut tokens);
            let mut j = i + 1;
            while j < n && s[j] != c
                invariant
                    n == s.len(),
                    i < j <= n,
                    quote_close(s@, i + 1, c) == quote_close(s@, j as int, c),
                decreases n - j,
            {
                j = j + 1;
            }
            if j == n {
                let rest = string_from_range(&s, i, n);
                return Err(ShellError::QuoteNotClosed(rest));
            }
            proof {
                lemma_quote_close_bounds(s@, j as int, c);
            }
            let text = trimmed_range(&s, i, j + 1);
            push_token(&mut tokens, Token::get_inquote(text));
            i = j + 1;
        } else {
            cmd.push(c);
            i = i + 1;
        }
    }
    flush(&mut cmd, &mut tokens);
    Ok(tokens)
}

/// Refuses a token sequence in which an operator is directly followed by
/// another; any other sequence is given back unchanged.
pub fn check_commands(tokens: Vec<Token>) -> (res: Result<Vec<Token>, ShellError>)
    ensures
        match res {
            Ok(t) => t@ == tokens@ && !adjacent_operators(tokens_view(tokens@)),
            Err(e) => e@ == SpecShellError::CommandAfterOperator && adjacent_operators(
                tokens_view(tokens@),
            ),
        },
{
    let mut i: usize = 0;
    let n = tokens.len();
    while n > 0 && i < n - 1
        invariant
            n == tokens.len(),
            i <= n,
            forall|k: int|
                0 <= k < i && k + 1 < n ==> !(tokens_view(tokens@)[k] is Op && #[trigger] tokens_view(
                    tokens@,
                )[k + 1] is Op),
        decreases n - i,
    {
        let a = match &tokens[i] {
            Token::Operator(_) => true,
            _ => false,
        };
        let b = match &tokens[i + 1] {
            Token::Operator(_) => true,
            _ => false,
        };
        if a && b {
            proof {
                let s = tokens_view(tokens@);
                assert(s[i as int] is Op && s[i + 1] is Op);
            }
            return Err(ShellError::CommandAfterOperator);
        }
        i = i + 1;
    }
    proof {
        let s = tokens_view(tokens@);
        if adjacent_operators(s) {
            let k = choose|k: int| 0 <= k < s.len() - 1 && s[k] is Op && #[trigger] s[k + 1] is Op;
            assert(!(s[k] is Op && s[k + 1] is Op));
        }
    }
    Ok(tokens)
}

/// What reading a command line gives: its tokens, refused when an operator
/// follows another, then divided at semicolons.
pub open spec fn spec_parse_line(s: Seq<char>) -> Result<Seq<Seq<SpecToken>>, SpecShellError> {
    match spec_get_token(s) {
        Err(e) => Err(e),
        Ok(t) => if adjacent_operators(t) {
            Err(SpecShellError::CommandAfterOperator)
        } else {
            Ok(spec_divide_tokens(t))
        },
    }
}

/// Reads a command line, as `spec_parse_line` says: `get_token`, then
/// `check_commands`, then `divide_tokens`.
pub fn parse_line(command: &str) -> (res: Result<Vec<Vec<Token>>, ShellError>)
    ensures
        match res {
            Ok(g) => spec_parse_line(command@) == Ok::<_, SpecShellError>(groups_view(g@)),
            Err(e) => spec_parse_line(command@) == Err::<Seq<Seq<SpecToken>>, _>(e@),
        },
{
    let tokens = get_token(command)?;
    let tokens = check_commands(tokens)?;
    Ok(divide_tokens(tokens))
}

/// Splits the tokens at each semicolon, as `spec_divide_tokens` says.
pub fn divide_tokens(tokens: Vec<Token>) -> (res: Vec<Vec<Token>>)
    ensures
        groups_view(res@) == spec_divide_tokens(tokens_view(tokens@)),
{
    let ghost s = tokens_view(tokens@);
    let mut done: Vec<Vec<Token>> = Vec::new();
    let mut cur: Vec<Token> = Vec::new();
    let mut i: usize = 0;
    proof {
        assert(s.take(0) =~= Seq::<SpecToken>::empty());
        assert(tokens_view(cur@) =~= Seq::<SpecToken>::empty());
        assert(groups_view(done@) =~= Seq::<Seq<SpecToken>>::empty());
        assert(groups_view(done@).push(tokens_view(cur@)) =~= split_semicolons(s.take(0)));
    }
    while i < tokens.len()
        invariant
            i <= tokens.len(),
            s == tokens_view(tokens@),
            groups_view(done@).push(tokens_view(cur@)) == split_semicolons(s.take(i as int)),
        decreases tokens.len() - i,
    {
        proof {
            lemma_split_semicolons_nonempty(s.take(i as int));
            assert(s.take(i + 1).drop_last() =~= s.take(i as int));
        }
        if tokens[i].is_semi_colon() {
            let ghost old_done = done@;
            done.push(cur);
            cur = Vec::new();
            proof {
                assert(groups_view(done@) =~= groups_view(old_done).push(
                    split_semicolons(s.take(i as int)).last(),
                ));
                assert(s[i as int] == tokens@[i as int]@);
                assert(s.take(i + 1).last() == s[i as int]);
                assert(tokens_view(cur@) =~= Seq::<SpecToken>::empty());
                assert(split_semicolons(s.take(i + 1)) == split_semicolons(s.take(i as int)).push(
                    Seq::empty(),
                ));
                assert(groups_view(done@).push(tokens_view(cur@)) =~= split_semicolons(
                    s.take(i + 1),
                ));
            }
        } else {
            let ghost old_cur = tokens_view(cur@);
            let t = tokens[i].duplicate();
            push_token(&mut cur, t);
            proof {
                let r = split_semicolons(s.take(i as int));
                assert(s[i as int] == tokens@[i as int]@);
                assert(s.take(i + 1).last() == s[i as int]);
                assert(r.last() == old_cur);
                assert(split_semicolons(s.take(i + 1)) == r.update(r.len() - 1, old_cur.push(s[i as int])));
                assert(groups_view(done@).push(tokens_view(cur@)) =~= split_semicolons(
                    s.take(i + 1),
                ));
            }
        }
        i = i + 1;
    }
    proof {
        assert(s.take(s.len() as int) =~= s);
    }
    if cur.len() > 0 {
        let ghost old_done = done@;
        done.push(cur);
        proof {
            assert(groups_view(done@) =~= groups_view(old_done).push(split_semicolons(s).last()));
            assert(split_semicolons(s) =~= split_semicolons(s).drop_last().push(
                split_semicolons(s).last(),
            ));
        }
    } else {
        proof {
            assert(groups_view(done@) =~= split_semicolons(s).drop_last());
        }
    }
    done
}

/// A piece of a command line ready to run: an instruction, or the control
/// operator that stands between two instructions.
#[derive(Debug)]
pub enum InstructionOrToken {
    Instruction(Instruction),
    Token(Token),
}

pub enum SpecItem {
    Instruction(SpecInstruction),
    Token(SpecToken),
}

impl View for InstructionOrToken {
    type V = SpecItem;

    open spec fn view(&self) -> SpecItem {
        match self {
            InstructionOrToken::Instruction(i) => SpecItem::Instruction(i@),
            InstructionOrToken::Token(t) => SpecItem::Token(t@),
        }
    }
}

/// The mathematical values of a sequence of items.
pub open spec fn items_view(s: Seq<InstructionOrToken>) -> Seq<SpecItem> {
    s.map_values(|x: InstructionOrToken| x@)
}

/// Builds the items of a run of tokens from position `i`, with `cur` the
/// instruction being built, `acc` the items produced so far, and `ready[r..]`
/// whether the files of the remaining redirections could be reached.
/// `None` stands for a run that is refused: a token that cannot be added to
/// the instruction, a redirection followed by a token that names no file, a
/// redirection with no outcome left in `ready`, a variable, or a malformed
/// last instruction.
///
/// Command and quoted-text tokens are added to the instruction; a
/// redirection applies to it with the token that follows (a redirection at
/// the very end is dropped); a control operator ends the instruction, which
/// is emitted followed by the operator, and a new instruction starts. The
/// last instruction is emitted if it has a command.
pub open spec fn build_from(
    toks: Seq<SpecToken>,
    i: int,
    ready: Seq<bool>,
    r: int,
    cur: SpecInstruction,
    acc: Seq<SpecItem>,
) -> Option<Seq<SpecItem>>
    decreases toks.len() - i,
{
    if i < 0 || i >= toks.len() {
        if malformed(cur) {
            None
        } else if cur.command.len() == 0 {
            Some(acc)
        } else {
            Some(acc.push(SpecItem::Instruction(cur)))
        }
    } else {
        let t = toks[i];
        match t {
            SpecToken::Command(_) => match spec_add_cmd_or_inquote(cur, t) {
                Some(c2) => build_from(toks, i + 1, ready, r, c2, acc),
                None => None,
            },
            SpecToken::Inquote(_) => match spec_add_cmd_or_inquote(cur, t) {
                Some(c2) => build_from(toks, i + 1, ready, r, c2, acc),
                None => None,
            },
            SpecToken::Op(TokenOperator::Redirection(red)) => if i + 1 < toks.len() {
                if !redirectable(toks[i + 1]) || r < 0 || r >= ready.len() {
                    None
                } else {
                    build_from(
                        toks,
                        i + 2,
                        ready,
                        r + 1,
                        spec_apply_redirection(cur, red, toks[i + 1], ready[r]),
                        acc,
                    )
                }
            } else {
                build_from(toks, i + 1, ready, r, cur, acc)
            },
            SpecToken::Op(TokenOperator::Logic(_)) => build_from(
                toks,
                i + 1,
                ready,
                r,
                empty_instruction(),
                acc.push(SpecItem::Instruction(cur)).push(SpecItem::Token(t)),
            ),
            SpecToken::Variable(_) => None,
        }
    }
}

/// The items of a run of tokens, as `build_from` says from the start.
pub open spec fn spec_build_instructions(toks: Seq<SpecToken>, ready: Seq<bool>) -> Option<Seq<SpecItem>> {
    build_from(toks, 0, ready, 0, empty_instruction(), Seq::empty())
}

/// The redirections of a run of tokens from position `i` that name a file,
/// in order, each with that file.
pub open spec fn requests_from(toks: Seq<SpecToken>, i: int) -> Seq<(TokenRedirection, Seq<char>)>
    decreases toks.len() - i,
{
    if i < 0 || i >= toks.len() {
        Seq::empty()
    } else {
        match toks[i] {
            SpecToken::Op(TokenOperator::Redirection(red)) => if i + 1 < toks.len() {
                if redirectable(toks[i + 1]) {
                    seq![(red, redirection_target(toks[i + 1]).0)] + requests_from(toks, i + 2)
                } else {
                    requests_from(toks, i + 2)
                }
            } else {
                Seq::empty()
            },
            _ => requests_from(toks, i + 1),
        }
    }
}

/// The redirections of a run of tokens and the files they name, in the
/// order in which `build_instructions` applies them: the files that must be
/// checked (an input) or created (an output) before building.
pub fn redirection_requests(tokens: &Vec<Token>) -> (res: Vec<(TokenRedirection, String)>)
    ensures
        res@.map_values(|x: (TokenRedirection, String)| (x.0, x.1@)) == requests_from(
            tokens_view(tokens@),
            0,
        ),
{
    let ghost s = tokens_view(tokens@);
    let mut res: Vec<(TokenRedirection, String)> = Vec::new();
    let mut i: usize = 0;
    let n = tokens.len();
    while i < n
        invariant
            n == tokens@.len(),
            i <= n + 1,
            s == tokens_view(tokens@),
            requests_from(s, 0) == res@.map_values(|x: (TokenRedirection, String)| (x.0, x.1@))
                + requests_from(s, i as int),
        decreases n + 1 - i,
    {
        proof {
            assert(s[i as int] == tokens@[i as int]@);
        }
        match &tokens[i] {
            Token::Operator(TokenOperator::Redirection(red)) => {
                if i + 1 < n {
                    proof {
                        assert(s[i + 1] == tokens@[i + 1]@);
                    }
                    if TokenRedirection::is_redirectable(&tokens[i + 1]) {
                        let file = TokenRedirection::redirection_file(&tokens[i + 1]);
                        let ghost before = res@;
                        res.push((*red, file));
                        proof {
                            assert(res@.map_values(|x: (TokenRedirection, String)| (x.0, x.1@))
                                =~= before.map_values(|x: (TokenRedirection, String)| (x.0, x.1@))
                                + seq![(*red, file@)]);
                        }
                    }
                    i = i + 2;
                } else {
                    proof {
                        assert(res@.map_values(|x: (TokenRedirection, String)| (x.0, x.1@))
                            + Seq::empty() =~= res@.map_values(
                            |x: (TokenRedirection, String)| (x.0, x.1@),
                        ));
                    }
                    return res;
                }
            },
            _ => {
                i = i + 1;
            },
        }
    }
    proof {
        assert(res@.map_values(|x: (TokenRedirection, String)| (x.0, x.1@)) + Seq::empty()
            =~= res@.map_values(|x: (TokenRedirection, String)| (x.0, x.1@)));
    }
    res
}

/// Appends an item.
fn push_item(acc: &mut Vec<InstructionOrToken>, x: InstructionOrToken)
    ensures
        items_view(final(acc)@) == items_view(old(acc)@).push(x@),
{
    acc.push(x);
    proof {
        assert(items_view(acc@) =~= items_view(old(acc)@).push(x@));
    }
}

/// Builds the items of a run of tokens, as `spec_build_instructions` says,
/// or `None` where that refuses the run. `ready[k]` tells whether the file
/// of the `k`-th redirection (see `redirection_requests`) could be reached.
pub fn try_build_instructions(tokens: &Vec<Token>, ready: &Vec<bool>) -> (res: Option<
    Vec<InstructionOrToken>,
>)
    ensures
        match res {
            Some(v) => spec_build_instructions(tokens_view(tokens@), ready@) == Some(items_view(v@)),
            None => spec_build_instructions(tokens_view(tokens@), ready@) is None,
        },
{
    let ghost s = tokens_view(tokens@);
    let mut acc: Vec<InstructionOrToken> = Vec::new();
    let mut cur = Instruction::new();
    let mut i: usize = 0;
    let mut r: usize = 0;
    let n = tokens.len();
    proof {
        assert(items_view(acc@) =~= Seq::<SpecItem>::empty());
    }
    while i < n
        invariant
            n == tokens@.len(),
            i <= n + 1,
            r <= ready@.len(),
            s == tokens_view(tokens@),
            spec_build_instructions(s, ready@) == build_from(
                s,
                i as int,
                ready@,
                r as int,
                cur@,
                items_view(acc@),
            ),
        decreases n + 1 - i,
    {
        proof {
            assert(s[i as int] == tokens@[i as int]@);
        }
        match &tokens[i] {
            Token::NotOperator(TokenNotOperator::Variable(_)) => {
                return None;
            },
            Token::NotOperator(_) => {
                if !cur.can_add_cmd_or_inquote(&tokens[i]) {
                    return None;
                }
                cur.add_cmd_or_inquote_token(tokens[i].duplicate());
                i = i + 1;
            },
            Token::Operator(TokenOperator::Redirection(red)) => {
                if i + 1 < n {
                    proof {
                        assert(s[i + 1] == tokens@[i + 1]@);
                    }
                    if !TokenRedirection::is_redirectable(&tokens[i + 1]) || r >= ready.len() {
                        return None;
                    }
                    TokenRedirection::apply_redirection(
                        &mut cur,
                        *red,
                        tokens[i + 1].duplicate(),
                        ready[r],
                    );
                    r = r + 1;
                    i = i + 2;
                } else {
                    i = i + 1;
                }
            },
            Token::Operator(TokenOperator::Logic(_)) => {
                let t = tokens[i].duplicate();
                let mut finished = Instruction::new();
                std::mem::swap(&mut cur, &mut finished);
                push_item(&mut acc, InstructionOrToken::Instruction(finished));
                push_item(&mut acc, InstructionOrToken::Token(t));
                i = i + 1;
            },
        }
    }
    if cur.is_malformed() {
        return None;
    }
    if !cur.is_empty() {
        push_item(&mut acc, InstructionOrToken::Instruction(cur));
    }
    Some(acc)
}

/// Builds the items of a run of tokens, as `spec_build_instructions` says;
/// the runs that it refuses are left out.
pub fn build_instructions(tokens: Vec<Token>, ready: &Vec<bool>) -> (res: Vec<InstructionOrToken>)
    requires
        spec_build_instructions(tokens_view(tokens@), ready@) is Some,
    ensures
        spec_build_instructions(tokens_view(tokens@), ready@) == Some(items_view(res@)),
{
    match try_build_instructions(&tokens, ready) {
        Some(v) => v,
        None => unreached(),
    }
}

} // verus!
