//! A single command to run: its name, its arguments and where its input
//! comes from and its output goes.
use vstd::prelude::*;
use crate::text::{split_whitespace, strings_view, words, string_from_chars, chars_of};
use crate::token::{
    Token, TokenNotOperator, TokenOperator, TokenRedirection, TokenError, SpecToken, quote_char,
    spec_trim_inquote, tokens_view,
};

verus! {

/// Where a command reads its input.
#[derive(Debug, Clone, PartialEq, Eq)]
pub enum Input {
    Stdin,
    File(String),
    /// The output of the previous command of a pipeline.
    Pipe,
}

/// Where a command writes its output.
#[derive(Debug, Clone, PartialEq, Eq)]
pub enum Output {
    Stdout,
    FileAppend(String),
    FileOverwrite(String),
    /// The input of the next command of a pipeline.
    Pipe,
}

pub enum SpecInput {
    Stdin,
    File(Seq<char>),
    Pipe,
}

pub enum SpecOutput {
    Stdout,
    FileAppend(Seq<char>),
    FileOverwrite(Seq<char>),
    Pipe,
}

impl View for Input {
    type V = SpecInput;

    open spec fn view(&self) -> SpecInput {
        match self {
            Input::Stdin => SpecInput::Stdin,
            Input::File(f) => SpecInput::File(f@),
            Input::Pipe => SpecInput::Pipe,
        }
    }
}

impl View for Output {
    type V = SpecOutput;

    open spec fn view(&self) -> SpecOutput {
        match self {
            Output::Stdout => SpecOutput::Stdout,
            Output::FileAppend(f) => SpecOutput::FileAppend(f@),
            Output::FileOverwrite(f) => SpecOutput::FileOverwrite(f@),
            Output::Pipe => SpecOutput::Pipe,
        }
    }
}

/// A command with its arguments, its input and its output.
#[derive(Debug)]
pub struct Instruction {
    command: String,
    args: Vec<String>,
    input: Input,
    output: Output,
}

/// The mathematical value of an instruction.
pub struct SpecInstruction {
    pub command: Seq<char>,
    pub args: Seq<Seq<char>>,
    pub input: SpecInput,
    pub output: SpecOutput,
}

impl View for Instruction {
    type V = SpecInstruction;

    closed spec fn view(&self) -> SpecInstruction {
        SpecInstruction {
            command: self.command@,
            args: strings_view(self.args@),
            input: self.input@,
            output: self.output@,
        }
    }
}

/// `ins` with its command replaced.
pub open spec fn with_command(ins: SpecInstruction, command: Seq<char>) -> SpecInstruction {
    SpecInstruction { command, ..ins }
}

/// `ins` with its arguments replaced.
pub open spec fn with_args(ins: SpecInstruction, args: Seq<Seq<char>>) -> SpecInstruction {
    SpecInstruction { args, ..ins }
}

/// `ins` with its input replaced.
pub open spec fn with_input(ins: SpecInstruction, input: SpecInput) -> SpecInstruction {
    SpecInstruction { input, ..ins }
}

/// `ins` with its output replaced.
pub open spec fn with_output(ins: SpecInstruction, output: SpecOutput) -> SpecInstruction {
    SpecInstruction { output, ..ins }
}

/// An instruction with no command, no arguments, standard input and
/// standard output.
pub open spec fn empty_instruction() -> SpecInstruction {
    SpecInstruction {
        command: Seq::empty(),
        args: Seq::empty(),
        input: SpecInput::Stdin,
        output: SpecOutput::Stdout,
    }
}

/// An instruction with a command and no arguments is malformed when it has
/// arguments; the operations that meet one refuse to go on.
pub open spec fn malformed(ins: SpecInstruction) -> bool {
    ins.command.len() == 0 && ins.args.len() > 0
}

/// What adding a command or quoted-text token to an instruction gives, or
/// `None` where that is refused: the instruction is malformed, the token is
/// of another kind, the command text has no word while the instruction has
/// no command yet, or the quoted text is a lone quote character.
///
/// The words of a command token go to the arguments, the first one becoming
/// the command if there is none yet; quoted text, stripped of its enclosing
/// quotes, becomes the command if there is none yet, else an argument.
pub open spec fn spec_add_cmd_or_inquote(ins: SpecInstruction, t: SpecToken) -> Option<
    SpecInstruction,
> {
    if malformed(ins) {
        None
    } else {
        match t {
            SpecToken::Command(c) => {
                let w = words(c);
                if ins.command.len() == 0 {
                    if w.len() == 0 {
                        None
                    } else {
                        Some(SpecInstruction { command: w[0], args: w.drop_first(), ..ins })
                    }
                } else {
                    Some(SpecInstruction { args: ins.args + w, ..ins })
                }
            },
            SpecToken::Inquote(q) => {
                if q.len() == 1 && quote_char(q[0]) {
                    None
                } else if ins.command.len() == 0 {
                    Some(SpecInstruction { command: spec_trim_inquote(q), ..ins })
                } else {
                    Some(SpecInstruction { args: ins.args.push(spec_trim_inquote(q)), ..ins })
                }
            },
            _ => None,
        }
    }
}

/// The instruction that a sequence of tokens describes, or the first
/// problem found: no token, or an operator.
///
/// The first token gives the command: the first word of a command token
/// (its other words become arguments), or quoted text as it is; a variable
/// gives nothing. Each later command token adds its words as arguments, and
/// each later quoted text is added as an argument as it is; variables are
/// skipped.
pub open spec fn spec_from_token(toks: Seq<SpecToken>) -> Option<Result<SpecInstruction, TokenError>> {
    if toks.len() == 0 {
        Some(Err(TokenError::NoToken))
    } else {
        match toks[0] {
            SpecToken::Op(op) => Some(Err(TokenError::OnlyNotOperatorToken(op))),
            SpecToken::Command(c) => if words(c).len() == 0 {
                None
            } else {
                from_token_rest(toks, 1, SpecInstruction { command: words(c)[0], args: words(c).drop_first(), ..empty_instruction() })
            },
            SpecToken::Inquote(q) => from_token_rest(toks, 1, SpecInstruction { command: q, ..empty_instruction() }),
            SpecToken::Variable(_) => from_token_rest(toks, 1, empty_instruction()),
        }
    }
}

/// The rest of `spec_from_token`, from position `i` with the instruction
/// built so far.
pub open spec fn from_token_rest(toks: Seq<SpecToken>, i: int, ins: SpecInstruction) -> Option<Result<SpecInstruction, TokenError>>
    decreases toks.len() - i,
{
    if i < 0 || i >= toks.len() {
        Some(Ok(ins))
    } else {
        match toks[i] {
            SpecToken::Op(op) => Some(Err(TokenError::OnlyNotOperatorToken(op))),
            SpecToken::Command(c) => from_token_rest(toks, i + 1, SpecInstruction { args: ins.args + words(c), ..ins }),
            SpecToken::Inquote(q) => from_token_rest(toks, i + 1, SpecInstruction { args: ins.args.push(q), ..ins }),
            SpecToken::Variable(_) => from_token_rest(toks, i + 1, ins),
        }
    }
}

/// The file that a redirection names, and the arguments that come after
/// it: the first word of a command token and its other words, or quoted
/// text as it is with no argument.
pub open spec fn redirection_target(t: SpecToken) -> (Seq<char>, Seq<Seq<char>>) {
    match t {
        SpecToken::Command(c) => (words(c)[0], words(c).drop_first()),
        SpecToken::Inquote(q) => (q, Seq::empty()),
        _ => (Seq::empty(), Seq::empty()),
    }
}

/// Whether a token can follow a redirection: a command token with at least
/// one word, or quoted text.
pub open spec fn redirectable(t: SpecToken) -> bool {
    (t is Command && words(t->Command_0).len() > 0) || t is Inquote
}

/// What a redirection does to an instruction, given whether the file could
/// be reached (`ready`: an input file exists, an output file could be
/// opened). The arguments after the file are added; an input redirection
/// sets the input to the file, and adds those arguments a second time when
/// the file exists; an output redirection sets the output to the file, to
/// be appended to or overwritten.
pub open spec fn spec_apply_redirection(
    ins: SpecInstruction,
    r: TokenRedirection,
    t: SpecToken,
    ready: bool,
) -> SpecInstruction {
    let (file, extra) = redirection_target(t);
    let ins1 = SpecInstruction { args: ins.args + extra, ..ins };
    match r {
        TokenRedirection::RedirectionInput => if ready {
            SpecInstruction { args: ins1.args + extra, input: SpecInput::File(file), ..ins1 }
        } else {
            SpecInstruction { input: SpecInput::File(file), ..ins1 }
        },
        TokenRedirection::RedirectionOutputAppend => SpecInstruction { output: SpecOutput::FileAppend(file), ..ins1 },
        TokenRedirection::RedirectionOutputOverwrite => SpecInstruction { output: SpecOutput::FileOverwrite(file), ..ins1 },
    }
}

/// The arguments joined with single spaces.
pub open spec fn join_spaces(args: Seq<Seq<char>>) -> Seq<char>
    decreases args.len(),
{
    if args.len() == 0 {
        Seq::empty()
    } else if args.len() == 1 {
        args[0]
    } else {
        join_spaces(args.drop_last()) + seq![' '] + args.last()
    }
}

/// A copy of a string list.
pub fn copy_strings(v: &Vec<String>) -> (res: Vec<String>)
    ensures
        strings_view(res@) == strings_view(v@),
{
    let mut res: Vec<String> = Vec::new();
    let mut i: usize = 0;
    while i < v.len()
        invariant
            i <= v.len(),
            strings_view(res@) == strings_view(v@).subrange(0, i as int),
        decreases v.len() - i,
    {
        let x = v[i].clone();
        let ghost before = res@;
        res.push(x);
        proof {
            assert(x@ == strings_view(v@)[i as int]);
            assert(strings_view(res@) =~= strings_view(before).push(x@));
            assert(strings_view(v@).subrange(0, i + 1) =~= strings_view(v@).subrange(0, i as int).push(x@));
        }
        i = i + 1;
        proof {
            assert(strings_view(res@) =~= strings_view(v@).subrange(0, i as int));
        }
    }
    proof {
        assert(strings_view(v@).subrange(0, i as int) =~= strings_view(v@));
    }
    res
}

/// Appends `more` to `v`.
pub fn extend_strings(v: &mut Vec<String>, more: Vec<String>)
    ensures
        strings_view(final(v)@) == strings_view(old(v)@) + strings_view(more@),
{
    let mut i: usize = 0;
    let ghost start = strings_view(v@);
    while i < more.len()
        invariant
            i <= more.len(),
            strings_view(v@) == start + strings_view(more@).subrange(0, i as int),
        decreases more.len() - i,
    {
        let x = more[i].clone();
        let ghost before = v@;
        v.push(x);
        proof {
            assert(x@ == strings_view(more@)[i as int]);
            assert(strings_view(v@) =~= strings_view(before).push(x@));
            assert(strings_view(more@).subrange(0, i + 1) =~= strings_view(more@).subrange(0, i as int).push(x@));
        }
        i = i + 1;
        proof {
            assert(strings_view(v@) =~= start + strings_view(more@).subrange(0, i as int));
        }
    }
    proof {
        assert(strings_view(more@).subrange(0, i as int) =~= strings_view(more@));
    }
}

impl Input {
    /// A copy of this input.
    pub fn duplicate(&self) -> (res: Input)
        ensures
            res@ == self@,
    {
        match self {
            Input::Stdin => Input::Stdin,
            Input::File(f) => Input::File(f.clone()),
            Input::Pipe => Input::Pipe,
        }
    }

    /// The text that a command reads when its input is standard input: its
    /// arguments joined with single spaces.
    pub fn read_from_stdout(args: Vec<String>) -> (res: String)
        ensures
            res@ == join_spaces(strings_view(args@)),
    {
        let mut res = String::new();
        let mut i: usize = 0;
        while i < args.len()
            invariant
                i <= args.len(),
                res@ == join_spaces(strings_view(args@).subrange(0, i as int)),
            decreases args.len() - i,
        {
            let ghost pre = strings_view(args@).subrange(0, i as int);
            let ghost next = strings_view(args@).subrange(0, i + 1);
            proof {
                assert(next.drop_last() =~= pre);
                assert(next.last() == args@[i as int]@);
            }
            if i > 0 {
                crate::text::push_char(&mut res, ' ');
            }
            res.append(args[i].as_str());
            proof {
                if i == 0 {
                    assert(pre.len() == 0);
                    assert(res@ =~= next[0]);
                } else {
                    assert(res@ =~= join_spaces(pre) + seq![' '] + next.last());
                }
            }
            i = i + 1;
        }
        proof {
            assert(strings_view(args@).subrange(0, i as int) =~= strings_view(args@));
        }
        res
    }
}

impl Output {
    /// A copy of this output.
    pub fn duplicate(&self) -> (res: Output)
        ensures
            res@ == self@,
    {
        match self {
            Output::Stdout => Output::Stdout,
            Output::FileAppend(f) => Output::FileAppend(f.clone()),
            Output::FileOverwrite(f) => Output::FileOverwrite(f.clone()),
            Output::Pipe => Output::Pipe,
        }
    }
}

impl Instruction {
    pub fn new() -> (res: Self)
        ensures
            res@ == empty_instruction(),
    {
        proof {
            assert(strings_view(Seq::<String>::empty()) =~= Seq::<Seq<char>>::empty());
        }
        Self { command: String::new(), args: Vec::new(), input: Input::Stdin, output: Output::Stdout }
    }

    /// Sets the command, unless the given one is empty.
    pub fn set_command(&mut self, command: String) -> (res: Option<()>)
        ensures
            command@.len() == 0 ==> res is None && final(self)@ == old(self)@,
            command@.len() > 0 ==> res is Some && final(self)@ == with_command(old(self)@, command@),
    {
        if command.as_str().is_empty() {
            return None;
        }
        self.command = command;
        Some(())
    }

    pub fn get_command(&self) -> (res: String)
        ensures
            res@ == self@.command,
    {
        self.command.clone()
    }

    /// Appends arguments.
    pub fn add_args(&mut self, args: Vec<String>)
        ensures
            final(self)@ == with_args(old(self)@, old(self)@.args + strings_view(args@)),
    {
        extend_strings(&mut self.args, args);
    }

    pub fn get_args(&self) -> (res: Vec<String>)
        ensures
            strings_view(res@) == self@.args,
    {
        copy_strings(&self.args)
    }

    pub fn get_len_args(&self) -> (res: usize)
        ensures
            res == self@.args.len(),
    {
        self.args.len()
    }

    /// An instruction made of the given parts, unless the command is empty.
    pub fn from(command: String, args: Vec<String>, input: Input, output: Output) -> (res: Option<Self>)
        ensures
            command@.len() == 0 <==> res is None,
            res matches Some(ins) ==> ins@ == (SpecInstruction {
                command: command@,
                args: strings_view(args@),
                input: input@,
                output: output@,
            }),
    {
        if command.as_str().is_empty() {
            return None;
        }
        Some(Self { command, args, input, output })
    }

    /// Adds a command or quoted-text token, as `spec_add_cmd_or_inquote`
    /// says; the cases where that gives `None` are left out.
    pub fn add_cmd_or_inquote_token(&mut self, token: Token)
        requires
            spec_add_cmd_or_inquote(old(self)@, token@) is Some,
        ensures
            final(self)@ == spec_add_cmd_or_inquote(old(self)@, token@)->0,
    {
        let command_empty = self.command.as_str().is_empty();
        match token {
            Token::NotOperator(TokenNotOperator::Command(cmd)) => {
                let w = split_whitespace(cmd.as_str());
                if command_empty {
                    let mut w = w;
                    let first = w.remove(0);
                    proof {
                        assert(strings_view(w@) =~= words(cmd@).drop_first());
                    }
                    self.command = first;
                    self.args = w;
                } else {
                    extend_strings(&mut self.args, w);
                }
            },
            Token::NotOperator(TokenNotOperator::Inquote(inquote)) => {
                let trimmed = TokenNotOperator::trim_inquote(inquote);
                if command_empty {
                    self.command = trimmed;
                } else {
                    let ghost before = self.args@;
                    self.args.push(trimmed);
                    proof {
                        assert(strings_view(self.args@) =~= strings_view(before).push(trimmed@));
                    }
                }
            },
            _ => {},
        }
    }

    /// Whether `add_cmd_or_inquote_token` accepts `token` here, as
    /// `spec_add_cmd_or_inquote` says.
    pub fn can_add_cmd_or_inquote(&self, token: &Token) -> (b: bool)
        ensures
            b == spec_add_cmd_or_inquote(self@, token@) is Some,
    {
        let command_empty = self.command.as_str().is_empty();
        if command_empty && self.args.len() > 0 {
            return false;
        }
        match token {
            Token::NotOperator(TokenNotOperator::Command(cmd)) => {
                if command_empty {
                    let w = split_whitespace(cmd.as_str());
                    w.len() > 0
                } else {
                    true
                }
            },
            Token::NotOperator(TokenNotOperator::Inquote(q)) => {
                let v = chars_of(q.as_str());
                !(v.len() == 1 && (v[0] == '"' || v[0] == '\''))
            },
            _ => false,
        }
    }

    /// Whether the instruction has no command but has arguments.
    pub fn is_malformed(&self) -> (b: bool)
        ensures
            b == malformed(self@),
    {
        self.command.as_str().is_empty() && self.args.len() > 0
    }

    /// Resets to an empty instruction.
    pub fn clear(&mut self)
        ensures
            final(self)@ == empty_instruction(),
    {
        self.command = String::new();
        self.args = Vec::new();
        self.input = Input::Stdin;
        self.output = Output::Stdout;
        proof {
            assert(strings_view(self.args@) =~= Seq::<Seq<char>>::empty());
        }
    }

    /// Whether the instruction has no command. A malformed instruction (no
    /// command but arguments) is left out.
    pub fn is_empty(&mut self) -> (b: bool)
        requires
            !malformed(old(self)@),
        ensures
            b == (old(self)@.command.len() == 0),
            final(self)@ == old(self)@,
    {
        self.command.as_str().is_empty()
    }

    /// The instruction that a sequence of tokens describes, as
    /// `spec_from_token` says; the case where that gives `None` (a first
    /// command token with no word) is left out.
    pub fn from_token(tokens: &[Token]) -> (res: Result<Self, TokenError>)
        requires
            spec_from_token(tokens_view(tokens@)) is Some,
        ensures
            match res {
                Ok(ins) => spec_from_token(tokens_view(tokens@)) == Some(Ok::<_, TokenError>(ins@)),
                Err(e) => spec_from_token(tokens_view(tokens@)) == Some(Err::<SpecInstruction, _>(e)),
            },
    {
        let ghost s = tokens_view(tokens@);
        if tokens.len() == 0 {
            return Err(TokenError::NoToken);
        }
        proof {
            assert(s[0] == tokens@[0]@);
        }
        let mut ins = Instruction::new();
        match &tokens[0] {
            Token::Operator(op) => {
                return Err(TokenError::OnlyNotOperatorToken(*op));
            },
            Token::NotOperator(TokenNotOperator::Command(cmd)) => {
                let mut w = split_whitespace(cmd.as_str());
                let first = w.remove(0);
                proof {
                    assert(strings_view(w@) =~= words(cmd@).drop_first());
                }
                ins.command = first;
                ins.args = w;
            },
            Token::NotOperator(TokenNotOperator::Inquote(q)) => {
                ins.command = q.clone();
            },
            Token::NotOperator(TokenNotOperator::Variable(_)) => {},
        }
        let mut i: usize = 1;
        while i < tokens.len()
            invariant
                1 <= i <= tokens@.len(),
                s == tokens_view(tokens@),
                spec_from_token(s) == from_token_rest(s, i as int, ins@),
            decreases tokens@.len() - i,
        {
            proof {
                assert(s[i as int] == tokens@[i as int]@);
            }
            match &tokens[i] {
                Token::Operator(op) => {
                    return Err(TokenError::OnlyNotOperatorToken(*op));
                },
                Token::NotOperator(TokenNotOperator::Command(cmd)) => {
                    let w = split_whitespace(cmd.as_str());
                    extend_strings(&mut ins.args, w);
                },
                Token::NotOperator(TokenNotOperator::Inquote(q)) => {
                    let ghost before = ins.args@;
                    ins.args.push(q.clone());
                    proof {
                        assert(strings_view(ins.args@) =~= strings_view(before).push(q@));
                    }
                },
                Token::NotOperator(TokenNotOperator::Variable(_)) => {},
            }
            i = i + 1;
        }
        Ok(ins)
    }

    pub fn set_io(&mut self, input: Input, output: Output)
        ensures
            final(self)@ == with_output(with_input(old(self)@, input@), output@),
    {
        self.input = input;
        self.output = output;
    }

    pub fn set_i(&mut self, input: Input)
        ensures
            final(self)@ == with_input(old(self)@, input@),
    {
        self.input = input;
    }

    pub fn get_i(&self) -> (res: &Input)
        ensures
            res@ == self@.input,
    {
        &self.input
    }

    /// Gives back the input and sets it to standard input.
    pub fn take_i_put_stdin(&mut self) -> (res: Input)
        ensures
            res@ == old(self)@.input,
            final(self)@ == with_input(old(self)@, SpecInput::Stdin),
    {
        let res = self.input.duplicate();
        self.input = Input::Stdin;
        res
    }

    pub fn set_o(&mut self, output: Output)
        ensures
            final(self)@ == with_output(old(self)@, output@),
    {
        self.output = output;
    }

    pub fn get_o(&self) -> (res: &Output)
        ensures
            res@ == self@.output,
    {
        &self.output
    }

    /// Gives back the output and sets it to standard output.
    pub fn take_o_put_stdout(&mut self) -> (res: Output)
        ensures
            res@ == old(self)@.output,
            final(self)@ == with_output(old(self)@, SpecOutput::Stdout),
    {
        let res = self.output.duplicate();
        self.output = Output::Stdout;
        res
    }
}

impl TokenRedirection {
    /// Whether `t` can follow a redirection, as `redirectable` says.
    pub fn is_redirectable(t: &Token) -> (b: bool)
        ensures
            b == redirectable(t@),
    {
        match t {
            Token::NotOperator(TokenNotOperator::Command(cmd)) => split_whitespace(cmd.as_str()).len() > 0,
            Token::NotOperator(TokenNotOperator::Inquote(_)) => true,
            _ => false,
        }
    }

    /// The file that a redirection to or from `cmd_or_inquote` names.
    pub fn redirection_file(cmd_or_inquote: &Token) -> (res: String)
        requires
            redirectable(cmd_or_inquote@),
        ensures
            res@ == redirection_target(cmd_or_inquote@).0,
    {
        match cmd_or_inquote {
            Token::NotOperator(TokenNotOperator::Command(cmd)) => {
                let mut w = split_whitespace(cmd.as_str());
                w.remove(0)
            },
            Token::NotOperator(TokenNotOperator::Inquote(q)) => q.clone(),
            _ => String::new(),
        }
    }

    /// Applies a redirection to an instruction, as `spec_apply_redirection`
    /// says; `file_ready` tells whether the file could be reached. A target
    /// token that is neither a command with a word nor quoted text is left
    /// out.
    pub fn apply_redirection(
        instruction: &mut Instruction,
        token_redirection: Self,
        cmd_or_inquote: Token,
        file_ready: bool,
    )
        requires
            redirectable(cmd_or_inquote@),
        ensures
            final(instruction)@ == spec_apply_redirection(
                old(instruction)@,
                token_redirection,
                cmd_or_inquote@,
                file_ready,
            ),
    {
        let file;
        let mut args: Vec<String> = Vec::new();
        match cmd_or_inquote {
            Token::NotOperator(TokenNotOperator::Command(cmd)) => {
                let mut w = split_whitespace(cmd.as_str());
                file = w.remove(0);
                proof {
                    assert(strings_view(w@) =~= words(cmd@).drop_first());
                }
                args = w;
                instruction.add_args(copy_strings(&args));
            },
            Token::NotOperator(TokenNotOperator::Inquote(inquote)) => {
                file = inquote;
                proof {
                    assert(strings_view(args@) =~= Seq::<Seq<char>>::empty());
                }
                instruction.add_args(Vec::new());
                proof {
                    assert(old(instruction)@.args + Seq::<Seq<char>>::empty() =~= old(instruction)@.args);
                }
            },
            _ => {
                file = String::new();
            },
        }
        match token_redirection {
            TokenRedirection::RedirectionInput => {
                instruction.set_i(Input::File(file.clone()));
                if file_ready {
                    instruction.add_args(args);
                    instruction.set_i(Input::File(file));
                }
            },
            TokenRedirection::RedirectionOutputAppend => {
                instruction.set_o(Output::FileAppend(file));
            },
            TokenRedirection::RedirectionOutputOverwrite => {
                instruction.set_o(Output::FileOverwrite(file));
            },
        }
    }
}

} // verus!
