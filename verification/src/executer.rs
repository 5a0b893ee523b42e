//! The decisions of running a line: how its items split at `&&`/`||` and
//! at `&`, whether to go on after a status, and how a pipeline wires the
//! input and output of its instructions.
use vstd::prelude::*;
use crate::command_parser::{InstructionOrToken, SpecItem, items_view};
use crate::instruction::{Instruction, SpecInstruction, SpecInput, SpecOutput, Input, Output, with_input, with_output};
use crate::token::{Token, TokenOperator, TokenLogic, SpecToken, logic};
use crate::shell_variables::{ShellCommands, spec_shell_command};

verus! {

/// Whether a run of items is started in the background.
#[derive(Clone, Copy, Debug, PartialEq, Eq, Structural)]
pub enum IsSpawn {
    SPAWN,
    NOTSPAWN,
}

/// How an instruction is run.
#[derive(Clone, Copy, Debug, PartialEq, Eq, Structural)]
pub enum Dispatch {
    /// A command of the shell's own, run by the shell; its status is the
    /// instruction's.
    Builtin(ShellCommands),
    /// A command of the shell's own in a background run: it is not run, and
    /// its status is 0.
    Skipped,
    /// A program, looked up in `PATH` and started.
    External,
}

/// How the instruction whose command is `cmd` is run.
pub open spec fn spec_dispatch(cmd: Seq<char>, is_spawn: IsSpawn) -> Dispatch {
    match spec_shell_command(cmd) {
        Some(c) => if is_spawn == IsSpawn::NOTSPAWN {
            Dispatch::Builtin(c)
        } else {
            Dispatch::Skipped
        },
        None => Dispatch::External,
    }
}

/// How the instruction whose command is `cmd` is run, as `spec_dispatch`
/// says.
pub fn dispatch(cmd: &str, is_spawn: IsSpawn) -> (d: Dispatch)
    ensures
        d == spec_dispatch(cmd@, is_spawn),
{
    match ShellCommands::from_name(cmd) {
        Some(c) => match is_spawn {
            IsSpawn::NOTSPAWN => Dispatch::Builtin(c),
            IsSpawn::SPAWN => Dispatch::Skipped,
        },
        None => Dispatch::External,
    }
}

/// Whether an item is the operator `&&` or `||`.
pub open spec fn is_and_or(x: SpecItem) -> bool {
    x == SpecItem::Token(logic(TokenLogic::And)) || x == SpecItem::Token(logic(TokenLogic::Or))
}

/// Whether an item is the operator `&`.
pub open spec fn is_background(x: SpecItem) -> bool {
    x == SpecItem::Token(logic(TokenLogic::Background))
}

/// The runs of items between the items on which `sep` holds, empty runs
/// included; there is always at least one.
pub open spec fn split_items(s: Seq<SpecItem>, sep: spec_fn(SpecItem) -> bool) -> Seq<Seq<SpecItem>>
    decreases s.len(),
{
    if s.len() == 0 {
        seq![Seq::empty()]
    } else {
        let r = split_items(s.drop_last(), sep);
        if sep(s.last()) {
            r.push(Seq::empty())
        } else {
            r.update(r.len() - 1, r.last().push(s.last()))
        }
    }
}

/// The items on which `sep` holds, in order.
pub open spec fn separators(s: Seq<SpecItem>, sep: spec_fn(SpecItem) -> bool) -> Seq<SpecItem>
    decreases s.len(),
{
    if s.len() == 0 {
        Seq::empty()
    } else if sep(s.last()) {
        separators(s.drop_last(), sep).push(s.last())
    } else {
        separators(s.drop_last(), sep)
    }
}

pub open spec fn and_or_pred() -> spec_fn(SpecItem) -> bool {
    |x: SpecItem| is_and_or(x)
}

pub open spec fn background_pred() -> spec_fn(SpecItem) -> bool {
    |x: SpecItem| is_background(x)
}

/// The mathematical values of runs of items.
pub open spec fn runs_view(v: Seq<Vec<InstructionOrToken>>) -> Seq<Seq<SpecItem>> {
    v.map_values(|r: Vec<InstructionOrToken>| items_view(r@))
}

pub proof fn lemma_split_items_nonempty(s: Seq<SpecItem>, sep: spec_fn(SpecItem) -> bool)
    ensures
        split_items(s, sep).len() >= 1,
        split_items(s, sep).len() == separators(s, sep).len() + 1,
    decreases s.len(),
{
    if s.len() > 0 {
        lemma_split_items_nonempty(s.drop_last(), sep);
    }
}

/// Splits items at each item on which `sep` holds (`&&`/`||` or `&`),
/// giving the runs between them and the separating operators.
fn split_at(items: Vec<InstructionOrToken>, and_or: bool) -> (res: (
    Vec<Vec<InstructionOrToken>>,
    Vec<TokenLogic>,
))
    ensures
        runs_view(res.0@) == split_items(
            items_view(items@),
            if and_or { and_or_pred() } else { background_pred() },
        ),
        res.1@.map_values(|l: TokenLogic| SpecItem::Token(logic(l))) == separators(
            items_view(items@),
            if and_or { and_or_pred() } else { background_pred() },
        ),
{
    let ghost sep = if and_or { and_or_pred() } else { background_pred() };
    let ghost s = items_view(items@);
    let mut items = items;
    let mut runs: Vec<Vec<InstructionOrToken>> = Vec::new();
    let mut cur: Vec<InstructionOrToken> = Vec::new();
    let mut ops: Vec<TokenLogic> = Vec::new();
    let mut i: usize = 0;
    let n = items.len();
    proof {
        assert(s.take(0) =~= Seq::<SpecItem>::empty());
        assert(items_view(cur@) =~= Seq::<SpecItem>::empty());
        assert(runs_view(runs@) =~= Seq::<Seq<SpecItem>>::empty());
        assert(runs_view(runs@).push(items_view(cur@)) =~= split_items(s.take(0), sep));
        assert(ops@.map_values(|l: TokenLogic| SpecItem::Token(logic(l))) =~= separators(s.take(0), sep));
    }
    while items.len() > 0
        invariant
            i + items@.len() == n,
            s.len() == n,
            items_view(items@) == s.skip(i as int),
            runs_view(runs@).push(items_view(cur@)) == split_items(s.take(i as int), sep),
            ops@.map_values(|l: TokenLogic| SpecItem::Token(logic(l))) == separators(s.take(i as int), sep),
            sep == (if and_or { and_or_pred() } else { background_pred() }),
        decreases items@.len(),
    {
        let ghost old_items = items@;
        let x = items.remove(0);
        proof {
            assert(x@ == s[i as int]) by {
                assert(items_view(old_items)[0] == old_items[0]@);
                assert(s.skip(i as int)[0] == s[i as int]);
            }
            assert(items_view(items@) =~= s.skip(i + 1)) by {
                assert(items_view(items@) =~= items_view(old_items).drop_first());
            }
            assert(s.take(i + 1).drop_last() =~= s.take(i as int));
            assert(s.take(i + 1).last() == s[i as int]);
        }
        let split_here = match &x {
            InstructionOrToken::Token(Token::Operator(TokenOperator::Logic(l))) => {
                if and_or {
                    match l {
                        TokenLogic::And => true,
                        TokenLogic::Or => true,
                        _ => false,
                    }
                } else {
                    match l {
                        TokenLogic::Background => true,
                        _ => false,
                    }
                }
            },
            _ => false,
        };
        proof {
            assert(split_here == sep(x@));
        }
        if split_here {
            let l = match &x {
                InstructionOrToken::Token(Token::Operator(TokenOperator::Logic(l))) => *l,
                _ => TokenLogic::SemiColon,
            };
            let ghost old_runs = runs@;
            let ghost old_ops = ops@;
            let ghost old_cur = items_view(cur@);
            runs.push(cur);
            cur = Vec::new();
            ops.push(l);
            proof {
                lemma_split_items_nonempty(s.take(i as int), sep);
                assert(split_items(s.take(i as int), sep).last() == old_cur);
                assert(runs_view(runs@) =~= runs_view(old_runs).push(old_cur));
                assert(items_view(cur@) =~= Seq::<SpecItem>::empty());
                assert(split_items(s.take(i + 1), sep) == split_items(s.take(i as int), sep).push(Seq::empty()));
                assert(runs_view(runs@).push(items_view(cur@)) =~= split_items(s.take(i + 1), sep));
                assert(SpecItem::Token(logic(l)) == x@);
                assert(ops@.map_values(|l: TokenLogic| SpecItem::Token(logic(l))) =~= old_ops.map_values(
                    |l: TokenLogic| SpecItem::Token(logic(l)),
                ).push(x@));
            }
        } else {
            let ghost old_cur = items_view(cur@);
            cur.push(x);
            proof {
                lemma_split_items_nonempty(s.take(i as int), sep);
                assert(items_view(cur@) =~= old_cur.push(x@));
                assert(runs_view(runs@).push(items_view(cur@)) =~= split_items(s.take(i + 1), sep));
            }
        }
        i = i + 1;
    }
    proof {
        assert(s.take(i as int) =~= s);
    }
    let ghost old_runs = runs@;
    runs.push(cur);
    proof {
        assert(runs_view(runs@) =~= runs_view(old_runs).push(items_view(cur@)));
    }
    (runs, ops)
}

/// The runs of a line between its `&&` and `||` operators, and those
/// operators in order: there is one run more than there are operators.
pub fn split_and_or(instructions_or_tokens: Vec<InstructionOrToken>) -> (res: (
    Vec<Vec<InstructionOrToken>>,
    Vec<TokenLogic>,
))
    ensures
        runs_view(res.0@) == split_items(items_view(instructions_or_tokens@), and_or_pred()),
        res.1@.map_values(|l: TokenLogic| SpecItem::Token(logic(l))) == separators(
            items_view(instructions_or_tokens@),
            and_or_pred(),
        ),
        res.0@.len() == res.1@.len() + 1,
{
    let r = split_at(instructions_or_tokens, true);
    proof {
        lemma_split_items_nonempty(items_view(instructions_or_tokens@), and_or_pred());
    }
    r
}

/// The runs of a line between its `&` operators: all but the last go to the
/// background, the last runs in the foreground.
pub fn split_background(instructions_or_tokens: Vec<InstructionOrToken>) -> (res: Vec<
    Vec<InstructionOrToken>,
>)
    ensures
        runs_view(res@) == split_items(items_view(instructions_or_tokens@), background_pred()),
        res@.len() >= 1,
{
    let (runs, _) = split_at(instructions_or_tokens, false);
    proof {
        lemma_split_items_nonempty(items_view(instructions_or_tokens@), background_pred());
    }
    runs
}

/// Whether the rest of a `&&`/`||` chain runs after a run ends with
/// `status`: after `&&` when it succeeded (status 0), after `||` when it
/// failed.
pub open spec fn spec_and_or_continue(connector: TokenLogic, status: i32) -> bool {
    if connector == TokenLogic::Or {
        status != 0
    } else {
        status == 0
    }
}

/// Whether the rest of a `&&`/`||` chain runs, as `spec_and_or_continue`
/// says.
pub fn and_or_continue(connector: TokenLogic, status: i32) -> (b: bool)
    ensures
        b == spec_and_or_continue(connector, status),
{
    match connector {
        TokenLogic::Or => status != 0,
        _ => status == 0,
    }
}

/// What a `&&`/`||` chain does next: run its run of the given number, or
/// end with the given status.
#[derive(Clone, Copy, Debug, PartialEq, Eq, Structural)]
pub enum ChainStep {
    Run(usize),
    Done(i32),
}

/// How a chain with the operators `ops` starts: with its first run, unless
/// it has no operator and its only run is empty, which ends it with status
/// 0.
pub open spec fn spec_chain_start(ops: Seq<TokenLogic>, last_empty: bool) -> ChainStep {
    if ops.len() == 0 && last_empty {
        ChainStep::Done(0)
    } else {
        ChainStep::Run(0)
    }
}

/// What a chain with the operators `ops` does once its run `k` ended with
/// `status`: the next run follows when the operator after run `k` says to
/// go on, unless that run is the last one and it is empty; otherwise the
/// chain ends with `status`.
pub open spec fn spec_chain_step(ops: Seq<TokenLogic>, last_empty: bool, k: int, status: i32) -> ChainStep {
    if 0 <= k < ops.len() && spec_and_or_continue(ops[k], status) && !(k + 1 == ops.len() && last_empty) {
        ChainStep::Run((k + 1) as usize)
    } else {
        ChainStep::Done(status)
    }
}

/// How a chain starts, as `spec_chain_start` says.
pub fn chain_start(ops: &Vec<TokenLogic>, last_empty: bool) -> (r: ChainStep)
    ensures
        r == spec_chain_start(ops@, last_empty),
{
    if ops.len() == 0 && last_empty {
        ChainStep::Done(0)
    } else {
        ChainStep::Run(0)
    }
}

/// What a chain does after its run `k`, as `spec_chain_step` says.
pub fn chain_step(ops: &Vec<TokenLogic>, last_empty: bool, k: usize, status: i32) -> (r: ChainStep)
    requires
        k <= ops@.len(),
    ensures
        r == spec_chain_step(ops@, last_empty, k as int, status),
{
    if k < ops.len() && and_or_continue(ops[k], status) && !(k + 1 == ops.len() && last_empty) {
        ChainStep::Run(k + 1)
    } else {
        ChainStep::Done(status)
    }
}

/// The status of a pipeline: that of its last instruction when it runs in
/// the foreground (0 when it has none), and 0 in the background.
pub open spec fn spec_pipeline_status(is_spawn: IsSpawn, last: Option<i32>) -> i32 {
    if is_spawn == IsSpawn::NOTSPAWN {
        match last {
            Some(x) => x,
            None => 0,
        }
    } else {
        0
    }
}

/// The status of a pipeline, as `spec_pipeline_status` says; `last` is the
/// status its last instruction ended with, if it has one.
pub fn pipeline_status(is_spawn: IsSpawn, last: Option<i32>) -> (s: i32)
    ensures
        s == spec_pipeline_status(is_spawn, last),
{
    match is_spawn {
        IsSpawn::NOTSPAWN => match last {
            Some(x) => x,
            None => 0,
        },
        IsSpawn::SPAWN => 0,
    }
}

/// Whether items alternate instruction, `|`, instruction, `|`, ...: every
/// instruction but the last is followed by `|`, and the last may be too.
pub open spec fn is_pipeline(s: Seq<SpecItem>) -> bool {
    &&& forall|k: int| 0 <= k < s.len() && k % 2 == 0 ==> #[trigger] s[k] is Instruction
    &&& forall|k: int| 0 <= k < s.len() && k % 2 == 1 ==> #[trigger] s[k] == SpecItem::Token(logic(TokenLogic::Pipe))
}

/// The instructions of a pipeline, each reading the output of the previous
/// one (all but the first) and writing into a pipe when a `|` follows it.
pub open spec fn spec_pipeline(s: Seq<SpecItem>) -> Seq<SpecInstruction> {
    let n = (s.len() + 1) / 2;
    Seq::new(
        n as nat,
        |k: int| {
            let ins = s[2 * k]->Instruction_0;
            let ins1 = if k > 0 { with_input(ins, SpecInput::Pipe) } else { ins };
            if 2 * k + 1 < s.len() { with_output(ins1, SpecOutput::Pipe) } else { ins1 }
        },
    )
}

/// Whether items form a pipeline, as `is_pipeline` says.
pub fn check_pipeline(instructions_or_tokens: &Vec<InstructionOrToken>) -> (b: bool)
    ensures
        b == is_pipeline(items_view(instructions_or_tokens@)),
{
    let ghost s = items_view(instructions_or_tokens@);
    let n = instructions_or_tokens.len();
    let mut k: usize = 0;
    while k < n
        invariant
            n == instructions_or_tokens@.len(),
            s == items_view(instructions_or_tokens@),
            k <= n,
            forall|j: int| 0 <= j < k && j % 2 == 0 ==> #[trigger] s[j] is Instruction,
            forall|j: int| 0 <= j < k && j % 2 == 1 ==> #[trigger] s[j] == SpecItem::Token(logic(TokenLogic::Pipe)),
        decreases n - k,
    {
        proof {
            assert(s[k as int] == instructions_or_tokens@[k as int]@);
        }
        let ok = match &instructions_or_tokens[k] {
            InstructionOrToken::Instruction(_) => k % 2 == 0,
            InstructionOrToken::Token(t) => k % 2 == 1 && t.is_pipe(),
        };
        if !ok {
            return false;
        }
        k = k + 1;
    }
    true
}

/// The instructions of a pipeline wired together, as `spec_pipeline` says;
/// items that do not form a pipeline are left out.
pub fn pipe(instructions_or_tokens: Vec<InstructionOrToken>) -> (res: Vec<Instruction>)
    requires
        is_pipeline(items_view(instructions_or_tokens@)),
    ensures
        res@.map_values(|i: Instruction| i@) == spec_pipeline(items_view(instructions_or_tokens@)),
{
    let ghost s = items_view(instructions_or_tokens@);
    let ghost total = ((s.len() + 1) / 2) as int;
    let n = instructions_or_tokens.len();
    let mut items = instructions_or_tokens;
    let mut res: Vec<Instruction> = Vec::new();
    let mut k: usize = 0;
    proof {
        assert(s.skip(0) =~= s);
    }
    while items.len() > 0
        invariant
            is_pipeline(s),
            s.len() == n,
            total == (s.len() + 1) / 2,
            2 * k + items@.len() == s.len() || (items@.len() == 0 && 2 * k == s.len() + 1),
            items@.len() > 0 ==> 2 * k + items@.len() == s.len(),
            items_view(items@) == (if 2 * k <= s.len() { s.skip(2 * k) } else { Seq::empty() }),
            res@.len() == k,
            k <= total,
            forall|j: int| 0 <= j < k ==> #[trigger] res@[j]@ == spec_pipeline(s)[j],
        decreases items@.len(),
    {
        let ghost old_items = items@;
        let x = items.remove(0);
        proof {
            assert(items_view(old_items)[0] == old_items[0]@);
            assert(s.skip(2 * k)[0] == s[2 * k]);
            assert(x@ == s[2 * k]);
            assert(s[2 * k] is Instruction);
            assert(items_view(items@) =~= s.skip(2 * k + 1)) by {
                assert(items_view(items@) =~= items_view(old_items).drop_first());
            }
        }
        let mut ins = match x {
            InstructionOrToken::Instruction(ins) => ins,
            InstructionOrToken::Token(_) => Instruction::new(),
        };
        if k > 0 {
            ins.set_i(Input::Pipe);
        }
        if items.len() > 0 {
            let ghost before = items@;
            let _pipe = items.remove(0);
            proof {
                assert(items_view(items@) =~= s.skip(2 * k + 2)) by {
                    assert(items_view(items@) =~= items_view(before).drop_first());
                }
            }
            ins.set_o(Output::Pipe);
        }
        proof {
            assert(ins@ == spec_pipeline(s)[k as int]);
        }
        res.push(ins);
        k = k + 1;
        proof {
            if items@.len() == 0 && 2 * k != s.len() + 1 {
                assert(2 * k == s.len());
            }
        }
    }
    proof {
        assert(res@.map_values(|i: Instruction| i@) =~= spec_pipeline(s));
    }
    res
}

} // verus!
