//! Properties of the shell that span several operations, stated over the
//! same models that the operations' contracts use, and proved.
use vstd::prelude::*;
use crate::command_parser::{
    lex, flush_command, operator_at, var_end, spec_get_token, split_semicolons, spec_divide_tokens,
    lemma_split_semicolons_nonempty,
};
use crate::instruction::join_spaces;
use crate::line_editor::{SpecEditor, EditKey, EditAction, spec_handle_key};
use crate::number::{int_text, nat_text, lemma_nat_text};
use crate::pattern::{
    spec_match, spec_match_braces, find_from, lemma_find_from, is_pattern_token, pattern_texts, spec_expand_command,
};
use crate::shell_error::SpecShellError;
use crate::shell_variables::{
    SpecVariables, lookup, spec_export, export_all, export_one, parse_affectation, split_sep_from, next_sep,
    sep_at, spec_parse_variables, spec_push_in, spec_expand_token, spec_expand_variables, history_text,
    spec_history, lines, strip_cr,
};
use crate::string_index::{
    SpecLine, byte_len, boundary, before, after, lemma_encode_concat, lemma_split, spec_insert, spec_remove, spec_move_left,
    spec_move_right,
};
use vstd::utf8::{encode_utf8, is_char_boundary, encode_utf8_valid_utf8, encode_utf8_first_scalar, encode_utf8_decode_utf8, pop_first_scalar, length_of_first_scalar, encode_scalar};
use crate::text::{is_ws, trim, trim_end, trim_start, split_pieces, char_pred, nonempty, lemma_nonempty_push};
use crate::token::{SpecToken, TokenLogic, logic, operator_char, quote_char, spec_trim_inquote};

verus! {

/// Two integers with the same decimal text are equal.
pub proof fn int_text_injective(a: int, b: int)
    requires
        int_text(a) == int_text(b),
    ensures
        a == b,
{
    if a < 0 {
        lemma_nat_text((-a) as nat);
    } else {
        lemma_nat_text(a as nat);
    }
    if b < 0 {
        lemma_nat_text((-b) as nat);
    } else {
        lemma_nat_text(b as nat);
    }
    if a < 0 && b < 0 {
        assert(int_text(a).drop_first() =~= nat_text((-a) as nat));
        assert(int_text(b).drop_first() =~= nat_text((-b) as nat));
    } else if a < 0 {
        assert(int_text(a)[0] == '-');
    } else if b < 0 {
        assert(int_text(b)[0] == '-');
    }
}

/// The status that `update_status` records is the one that `get_status`
/// reads back: when `?` is set to the text of `s` and later holds the text
/// of `r`, with nothing written in between, `r` is `s`.
pub proof fn status_read_back(before: SpecVariables, after: SpecVariables, s: i32, r: i32)
    requires
        after.shell_vars == before.shell_vars.insert("?"@, int_text(s as int)),
        after.shell_vars["?"@] == int_text(r as int),
    ensures
        r == s,
{
    int_text_injective(r as int, s as int);
}

/// The end of the encoding of `x` starts a character of the encoding of
/// `x + y`.
proof fn prefix_end_is_boundary(x: Seq<char>, y: Seq<char>)
    ensures
        is_char_boundary(encode_utf8(x + y), encode_utf8(x).len() as int),
    decreases x.len(),
{
    let t = x + y;
    encode_utf8_valid_utf8(t);
    if x.len() == 0 {
        assert(encode_utf8(x) =~= Seq::<u8>::empty());
    } else {
        encode_utf8_first_scalar(t);
        assert(t[0] == x[0]);
        assert(t.drop_first() =~= x.drop_first() + y);
        assert(pop_first_scalar(encode_utf8(t)) =~= encode_utf8(t.drop_first()));
        lemma_encode_concat(x, y);
        assert(encode_utf8(x).len() == encode_scalar(x[0] as u32).len() + encode_utf8(x.drop_first()).len());
        prefix_end_is_boundary(x.drop_first(), y);
        assert(encode_utf8(x).len() > 0);
    }
}

/// Typing a character where the cursor starts one, then deleting the
/// character before the cursor, gives back the line.
pub proof fn insert_then_remove(l: SpecLine, c: char)
    requires
        boundary(l.text, l.index),
        0 <= l.index <= byte_len(l.text),
    ensures
        spec_insert(l, c) is Some,
        spec_remove(spec_insert(l, c)->0) == Some(l),
{
    let t = l.text;
    let i = l.index;
    lemma_split(t, i);
    let b = before(t, i);
    let a = after(t, i);
    let m = spec_insert(l, c)->0;
    assert(m.text == b + seq![c] + a);
    let y = seq![c] + a;
    assert(m.text =~= b + y);
    lemma_encode_concat(b, y);
    lemma_encode_concat(seq![c], a);
    assert(encode_utf8(b).len() == i);
    prefix_end_is_boundary(b, y);
    assert(encode_utf8(seq![c]).len() >= 1) by {
        assert(seq![c].drop_first() =~= Seq::<char>::empty());
    }
    let bm = encode_utf8(m.text);
    assert(bm.subrange(0, i) =~= encode_utf8(b));
    assert(bm.subrange(i, bm.len() as int) =~= encode_utf8(y));
    encode_utf8_decode_utf8(b);
    encode_utf8_decode_utf8(y);
    assert(before(m.text, i) == b);
    assert(after(m.text, i) == y);
    assert(y.drop_first() =~= a);
    assert(b + a == t);
}

/// Moving the cursor right and then left puts it back, unless it was at the
/// end of the line; moving left then right puts it back unless it was at the
/// start.
pub proof fn move_right_then_left(l: SpecLine)
    requires
        0 <= l.index <= byte_len(l.text),
    ensures
        l.index < byte_len(l.text) ==> spec_move_left(spec_move_right(l)) == l,
        l.index > 0 ==> spec_move_right(spec_move_left(l)) == l,
{
}

/// Quoted text loses exactly its enclosing quotes.
pub proof fn trim_inquote_of_quoted(q: char, s: Seq<char>)
    requires
        quote_char(q),
    ensures
        spec_trim_inquote(seq![q] + s + seq![q]) == s,
{
    let t = seq![q] + s + seq![q];
    assert(t[0] == q);
    assert(t.last() == q);
    assert(t.subrange(1, t.len() - 1) =~= s);
}

/// The runs of `s` between semicolons, put back together, are the tokens of
/// `s` that are not semicolons, in order, and no run holds a semicolon.
proof fn split_semicolons_keeps(s: Seq<SpecToken>)
    ensures
        split_semicolons(s).flatten() == s.filter(|t: SpecToken| t != logic(TokenLogic::SemiColon)),
        forall|g: int, k: int|
            0 <= g < split_semicolons(s).len() && 0 <= k < split_semicolons(s)[g].len() ==> #[trigger] split_semicolons(s)[g][k]
                != logic(TokenLogic::SemiColon),
    decreases s.len(),
{
    broadcast use Seq::lemma_flatten_push, Seq::lemma_filter_push;

    let pred = |t: SpecToken| t != logic(TokenLogic::SemiColon);
    if s.len() == 0 {
        reveal(Seq::filter);
        assert(split_semicolons(s) =~= seq![Seq::<SpecToken>::empty()]);
        assert(seq![Seq::<SpecToken>::empty()] =~= Seq::<Seq<SpecToken>>::empty().push(Seq::empty()));
        assert(Seq::<Seq<SpecToken>>::empty().flatten() =~= Seq::<SpecToken>::empty());
    } else {
        let init = s.drop_last();
        let x = s.last();
        split_semicolons_keeps(init);
        lemma_split_semicolons_nonempty(init);
        let r = split_semicolons(init);
        assert(s =~= init.push(x));
        if x == logic(TokenLogic::SemiColon) {
            assert(split_semicolons(s) == r.push(Seq::empty()));
            assert(r.push(Seq::<SpecToken>::empty()).flatten() =~= r.flatten() + Seq::<SpecToken>::empty());
            assert(r.flatten() + Seq::<SpecToken>::empty() =~= r.flatten());
        } else {
            let r2 = r.update(r.len() - 1, r.last().push(x));
            assert(split_semicolons(s) == r2);
            assert(r =~= r.drop_last().push(r.last()));
            assert(r2 =~= r.drop_last().push(r.last().push(x)));
            assert(r.drop_last().push(r.last()).flatten() == r.drop_last().flatten() + r.last());
            assert(r2.flatten() == r.drop_last().flatten() + r.last().push(x));
            assert(r.drop_last().flatten() + r.last().push(x) =~= (r.drop_last().flatten() + r.last()).push(x));
            assert forall|g: int, k: int|
                0 <= g < r2.len() && 0 <= k < r2[g].len() implies #[trigger] r2[g][k]
                    != logic(TokenLogic::SemiColon) by {
                if g < r.len() - 1 {
                    assert(r2[g] == r[g]);
                } else if k < r.last().len() {
                    assert(r2[g][k] == r[g][k]);
                }
            }
        }
    }
}

/// Dividing a line at its semicolons keeps every token that is not a
/// semicolon, in order, and no instruction it gives holds a semicolon.
pub proof fn divide_keeps_tokens(s: Seq<SpecToken>)
    ensures
        spec_divide_tokens(s).flatten() == s.filter(|t: SpecToken| t != logic(TokenLogic::SemiColon)),
        forall|g: int, k: int|
            0 <= g < spec_divide_tokens(s).len() && 0 <= k < spec_divide_tokens(s)[g].len() ==> #[trigger] spec_divide_tokens(s)[g][k]
                != logic(TokenLogic::SemiColon),
{
    broadcast use Seq::lemma_flatten_push;

    split_semicolons_keeps(s);
    lemma_split_semicolons_nonempty(s);
    let p = split_semicolons(s);
    if p.last().len() == 0 {
        assert(p =~= p.drop_last().push(p.last()));
        assert(p.drop_last().push(p.last()).flatten() == p.drop_last().flatten() + p.last());
        assert(p.drop_last().flatten() + p.last() =~= p.drop_last().flatten());
        assert forall|g: int, k: int|
            0 <= g < p.drop_last().len() && 0 <= k < p.drop_last()[g].len() implies #[trigger] p.drop_last()[g][k]
                != logic(TokenLogic::SemiColon) by {
            assert(p.drop_last()[g] == p[g]);
        }
    }
}

/// A pattern without `*`, `?` or `[` matches exactly the text equal to it.
pub proof fn literal_pattern_matches_itself(p: Seq<char>, t: Seq<char>)
    requires
        !p.contains('*'),
        !p.contains('?'),
        !p.contains('['),
    ensures
        spec_match(p, t) <==> p == t,
    decreases p.len() + t.len(),
{
    if p.len() > 0 {
        assert(p[0] != '*' && p[0] != '?' && p[0] != '[') by {
            assert(p.contains(p[0]));
        }
        let q = p.drop_first();
        assert(!q.contains('*') && !q.contains('?') && !q.contains('[')) by {
            if q.contains('*') {
                let i = choose|i: int| 0 <= i < q.len() && q[i] == '*';
                assert(p[i + 1] == '*');
            }
            if q.contains('?') {
                let i = choose|i: int| 0 <= i < q.len() && q[i] == '?';
                assert(p[i + 1] == '?');
            }
            if q.contains('[') {
                let i = choose|i: int| 0 <= i < q.len() && q[i] == '[';
                assert(p[i + 1] == '[');
            }
        }
        if t.len() > 0 {
            literal_pattern_matches_itself(q, t.drop_first());
            if p[0] == t[0] && q == t.drop_first() {
                assert(p =~= seq![p[0]] + q);
                assert(t =~= seq![t[0]] + t.drop_first());
            }
            if p == t {
                assert(q =~= t.drop_first());
            }
        }
    } else {
        if t.len() == 0 {
            assert(p =~= t);
        }
    }
}

/// The pattern `*` matches every text.
pub proof fn star_matches_all(t: Seq<char>)
    ensures
        spec_match(seq!['*'], t),
    decreases t.len(),
{
    let p = seq!['*'];
    assert(p.len() == 1 && p[0] == '*');
    assert(p.drop_first() =~= Seq::<char>::empty());
    if t.len() > 0 {
        star_matches_all(t.drop_first());
        assert(spec_match(p, t.drop_first()));
        assert(spec_match(p, t));
    } else {
        assert(spec_match(p.drop_first(), t));
        assert(spec_match(p, t));
    }
}

/// A pattern without `{` stands for itself alone.
pub proof fn braceless_pattern_expands_to_itself(p: Seq<char>)
    requires
        !p.contains('{'),
    ensures
        spec_match_braces(p) == seq![p],
{
    lemma_find_from(p, '{', 0);
    if find_from(p, '{', 0) < p.len() {
        assert(p[find_from(p, '{', 0)] == '{');
    }
}

/// Splitting `s + t`, where `t` holds no separator, extends the last piece
/// of `s` by `t`.
proof fn split_append_plain(s: Seq<char>, t: Seq<char>, sep: spec_fn(char) -> bool)
    requires
        forall|k: int| 0 <= k < t.len() ==> !sep(#[trigger] t[k]),
    ensures
        split_pieces(s + t, sep) == split_pieces(s, sep).update(
            split_pieces(s, sep).len() - 1,
            split_pieces(s, sep).last() + t,
        ),
    decreases t.len(),
{
    crate::text::lemma_split_pieces_nonempty(s, sep);
    let r = split_pieces(s, sep);
    if t.len() == 0 {
        assert(s + t =~= s);
        assert(r.last() + t =~= r.last());
        assert(r.update(r.len() - 1, r.last()) =~= r);
    } else {
        let u = t.drop_last();
        assert forall|k: int| 0 <= k < u.len() implies !sep(#[trigger] u[k]) by {
            assert(u[k] == t[k]);
        }
        split_append_plain(s, u, sep);
        assert((s + t).drop_last() =~= s + u);
        assert((s + t).last() == t.last());
        assert(!sep(t[t.len() - 1]));
        crate::text::lemma_split_pieces_nonempty(s + u, sep);
        let q = split_pieces(s + u, sep);
        assert(q.last() == r.last() + u);
        assert(q.last().push(t.last()) =~= r.last() + t);
        assert(q.update(q.len() - 1, q.last().push(t.last())) =~= r.update(r.len() - 1, r.last() + t));
    }
}

/// A text trimmed at its end that is not empty does not end with
/// whitespace.
proof fn trim_end_last(s: Seq<char>)
    ensures
        trim_end(s).len() > 0 ==> !is_ws(trim_end(s).last()),
    decreases s.len(),
{
    if s.len() > 0 && is_ws(s.last()) {
        trim_end_last(s.drop_last());
    }
}

/// The lines of a text made of whole lines, once a line `t` that is not
/// empty, holds no newline and does not end with whitespace is appended
/// with its newline, are its lines and then `t`.
proof fn lines_after_append(h: Seq<char>, t: Seq<char>)
    requires
        history_text(h),
        !t.contains('\n'),
        t.len() > 0,
        !is_ws(t.last()),
    ensures
        lines(h + t + seq!['\n']) == lines(h).push(t),
{
    let sep = char_pred('\n');
    crate::text::lemma_split_pieces_nonempty(h, sep);
    let r = split_pieces(h, sep);
    if h.len() == 0 {
        assert(r == seq![Seq::<char>::empty()]);
    } else {
        assert(h =~= h.drop_last().push(h.last()));
        crate::text::lemma_split_pieces_nonempty(h.drop_last(), sep);
        assert(r == split_pieces(h.drop_last(), sep).push(Seq::empty()));
    }
    assert(r.last().len() == 0);
    assert forall|k: int| 0 <= k < t.len() implies !sep(#[trigger] t[k]) by {
        if t[k] == '\n' {
            assert(t.contains('\n'));
        }
    }
    split_append_plain(h, t, sep);
    let p = split_pieces(h + t, sep);
    assert(r.last() + t =~= t);
    assert(p == r.update(r.len() - 1, t));
    let full = h + t + seq!['\n'];
    assert(full.drop_last() =~= h + t);
    assert(full.last() == '\n');
    crate::text::lemma_split_pieces_nonempty(h + t, sep);
    assert(split_pieces(full, sep) == p.push(Seq::empty()));
    assert(p.push(Seq::<char>::empty()).drop_last() =~= p);
    assert(t.last() != '\r') by {
        assert(is_ws('\r'));
    }
    assert(strip_cr(t) == t);
    assert(lines(full) == p.map_values(|l: Seq<char>| strip_cr(l)));
    assert(lines(h) == r.drop_last().map_values(|l: Seq<char>| strip_cr(l)));
    assert(p =~= r.drop_last().push(t));
    assert(p.map_values(|l: Seq<char>| strip_cr(l)) =~= r.drop_last().map_values(|l: Seq<char>| strip_cr(l)).push(
        strip_cr(t),
    ));
}

/// Recording a one-line command puts it in front of the history that
/// `get_history` gives: `update_history` appends the trimmed command and a
/// newline to `HISTORY`, which (as the store keeps it) is made of whole
/// lines, and the history read back is the trimmed command followed by the
/// history before.
pub proof fn recorded_command_comes_first(h: Seq<char>, cmd: Seq<char>)
    requires
        history_text(h),
        trim(cmd).len() > 0,
        !trim(cmd).contains('\n'),
    ensures
        spec_history(h + trim(cmd) + seq!['\n']) == seq![trim(cmd)] + spec_history(h),
        history_text(h + trim(cmd) + seq!['\n']),
{
    let t = trim(cmd);
    trim_end_last(trim_start(cmd));
    lines_after_append(h, t);
    lemma_nonempty_push(lines(h), t);
    let n = nonempty(lines(h));
    assert(n.push(t).reverse() =~= seq![t] + n.reverse());
}

/// With no separator at or after `j`, the search for one reaches the end.
proof fn no_separator_from(s: Seq<char>, j: int)
    requires
        0 <= j <= s.len(),
        forall|k: int| j <= k < s.len() ==> !sep_at(s, k),
    ensures
        next_sep(s, j) == s.len(),
    decreases s.len() - j,
{
    if j < s.len() {
        no_separator_from(s, j + 1);
    }
}

/// `export NAME=VALUE` makes `$NAME` stand for `VALUE` (both trimmed), as
/// long as `NAME` is not one of the shell's own variables (`PWD`, `?`, ...),
/// which are looked up first; the assignment holds no ` \ `.
pub proof fn export_then_lookup(v: SpecVariables, name: Seq<char>, value: Seq<char>)
    requires
        !name.contains('='),
        trim(name).len() > 0,
        trim(value).len() > 0,
        forall|k: int| !sep_at(name + seq!['='] + value, k),
        !v.shell_vars.contains_key(trim(name)),
    ensures
        lookup(spec_export(v, seq![name + seq!['='] + value]), trim(name)) == Some(trim(value)),
{
    let a = name + seq!['='] + value;
    crate::pattern::lemma_find_from(a, '=', 0);
    let e = find_from(a, '=', 0);
    assert(a[name.len() as int] == '=');
    if e < name.len() {
        assert(a[e] == name[e]);
        assert(name.contains('='));
    }
    assert(e == name.len());
    assert(trim(name).len() > 0);
    assert(name.len() > 0) by {
        if name.len() == 0 {
            assert(trim_start(name) == name);
            assert(trim_end(name) == name);
        }
    }
    assert(a.subrange(0, e) =~= name);
    assert(a.subrange(e + 1, a.len() as int) =~= value);
    assert(parse_affectation(a) == (name, value));
    assert(join_spaces(seq![a]) == a);
    no_separator_from(a, 0);
    assert(a.subrange(0, a.len() as int) =~= a);
    assert(split_sep_from(a, 0) == seq![a]);
    assert(seq![a].drop_last() =~= Seq::<Seq<char>>::empty());
    assert(export_all(v, seq![a]) == export_one(export_all(v, Seq::empty()), a));
}

/// Reading a name with no `$` and no space to the end of the text looks up
/// the whole name.
proof fn parse_plain_name(
    v: SpecVariables,
    s: Seq<char>,
    i: int,
    acc: Seq<char>,
    cur: Seq<char>,
)
    requires
        0 <= i <= s.len(),
        forall|k: int| i <= k < s.len() ==> #[trigger] s[k] != '$' && s[k] != ' ',
        (cur + s.skip(i)).len() > 0,
    ensures
        spec_parse_variables(v, s, i, None, acc, cur) == match spec_push_in(v, acc, cur + s.skip(i)) {
            Ok(a) => Ok((a, s.len() as int)),
            Err(e) => Err(e),
        },
    decreases s.len() - i,
{
    if i == s.len() {
        assert(cur + s.skip(i) =~= cur);
    } else {
        assert(s[i] != '$' && s[i] != ' ');
        assert(cur.push(s[i]) + s.skip(i + 1) =~= cur + s.skip(i));
        parse_plain_name(v, s, i + 1, acc, cur.push(s[i]));
    }
}

/// A variable whose name holds no `$` and no space expands to the command
/// made of its value; an unknown one is refused with `VarNotFound`.
pub proof fn variable_expands_to_value(v: SpecVariables, name: Seq<char>)
    requires
        name.len() > 0,
        !name.contains('$'),
        !name.contains(' '),
    ensures
        lookup(v, name) matches Some(x) ==> spec_expand_token(v, SpecToken::Variable(name)) == Ok::<
            SpecToken,
            SpecShellError,
        >(SpecToken::Command(x)),
        lookup(v, name) is None ==> spec_expand_token(v, SpecToken::Variable(name)) == Err::<
            SpecToken,
            SpecShellError,
        >(SpecShellError::VarNotFound(name)),
{
    assert forall|k: int| 0 <= k < name.len() implies #[trigger] name[k] != '$' && name[k] != ' ' by {
        if name[k] == '$' {
            assert(name.contains('$'));
        }
        if name[k] == ' ' {
            assert(name.contains(' '));
        }
    }
    assert(Seq::<char>::empty() + name.skip(0) =~= name);
    parse_plain_name(v, name, 0, Seq::empty(), Seq::empty());
    if let Some(x) = lookup(v, name) {
        assert(Seq::<char>::empty() + x =~= x);
    }
}

/// Whether expanding a token leaves it as it is: an operator, a command, or
/// text in single quotes.
pub open spec fn kept_by_expansion(t: SpecToken) -> bool {
    match t {
        SpecToken::Op(_) => true,
        SpecToken::Command(_) => true,
        SpecToken::Inquote(q) => q.len() > 0 && q[0] == '\'',
        SpecToken::Variable(_) => false,
    }
}

/// Expansion only touches variables and text in double quotes: tokens that
/// hold neither come out unchanged.
pub proof fn expansion_keeps_plain_tokens(v: SpecVariables, toks: Seq<SpecToken>, i: int)
    requires
        0 <= i <= toks.len(),
        forall|k: int| 0 <= k < toks.len() ==> kept_by_expansion(#[trigger] toks[k]),
    ensures
        spec_expand_variables(v, toks, i) == Ok::<Seq<SpecToken>, SpecShellError>(toks.skip(i)),
    decreases toks.len() - i,
{
    if i == toks.len() {
        assert(toks.skip(i) =~= Seq::<SpecToken>::empty());
    } else {
        expansion_keeps_plain_tokens(v, toks, i + 1);
        assert(kept_by_expansion(toks[i]));
        assert(spec_expand_token(v, toks[i]) == Ok::<SpecToken, SpecShellError>(toks[i]));
        assert(seq![toks[i]] + toks.skip(i + 1) =~= toks.skip(i));
    }
}

/// Down after Up comes back to where the browsing of the history was, and
/// shows again the line found there: the line being typed when the browsing
/// had not started, the history entry otherwise.
pub proof fn down_after_up(e: SpecEditor)
    requires
        0 <= e.history_index < e.history.len(),
    ensures
        ({
            let e1 = spec_handle_key(e, EditKey::Up).0;
            let (e2, action) = spec_handle_key(e1, EditKey::Down);
            let shown = if e.history_index == 0 { e.new_command } else { e.history[e.history_index - 1] };
            &&& e2.history_index == e.history_index
            &&& e2.line == SpecLine { text: shown, index: byte_len(shown) as int }
            &&& e2.new_command == e.new_command
            &&& e2.history == e.history
            &&& action == EditAction::Redraw
        }),
{
}

/// Whether every command token of `toks` has some text.
pub open spec fn commands_nonempty(toks: Seq<SpecToken>) -> bool {
    forall|k: int| 0 <= k < toks.len() ==> (#[trigger] toks[k] matches SpecToken::Command(x) ==> x.len() > 0)
}

proof fn lex_commands_nonempty(s: Seq<char>, i: int, cmd: Seq<char>, toks: Seq<SpecToken>)
    requires
        commands_nonempty(toks),
    ensures
        lex(s, i, cmd, toks) matches Ok(r) ==> commands_nonempty(r),
    decreases s.len() - i,
{
    let (cmd2, toks2) = flush_command(cmd, toks);
    assert(commands_nonempty(toks2)) by {
        if trim(cmd).len() > 0 {
            assert forall|k: int| 0 <= k < toks2.len() implies (#[trigger] toks2[k] matches SpecToken::Command(
                x,
            ) ==> x.len() > 0) by {
                if k < toks.len() {
                    assert(toks2[k] == toks[k]);
                }
            }
        }
    }
    if 0 <= i < s.len() {
        let c = s[i];
        if operator_char(c) {
            let (t, n) = operator_at(s, i);
            let t2 = toks2.push(t);
            assert(commands_nonempty(t2)) by {
                assert forall|k: int| 0 <= k < t2.len() implies (#[trigger] t2[k] matches SpecToken::Command(
                    x,
                ) ==> x.len() > 0) by {
                    if k < toks2.len() {
                        assert(t2[k] == toks2[k]);
                    }
                }
            }
            if i + n <= s.len() {
                lex_commands_nonempty(s, i + n, cmd2, t2);
            }
        } else if c == '$' {
            let e = var_end(s, i + 1);
            let name = s.subrange(i + 1, e);
            let t = if name.len() == 0 {
                SpecToken::Command(seq!['$'])
            } else {
                SpecToken::Variable(trim(name))
            };
            let t2 = toks2.push(t);
            assert(commands_nonempty(t2)) by {
                assert forall|k: int| 0 <= k < t2.len() implies (#[trigger] t2[k] matches SpecToken::Command(
                    x,
                ) ==> x.len() > 0) by {
                    if k < toks2.len() {
                        assert(t2[k] == toks2[k]);
                    }
                }
            }
            if i < e <= s.len() {
                lex_commands_nonempty(s, e, cmd2, t2);
            }
        } else if crate::token::quote_char(c) {
            match crate::command_parser::quote_close(s, i + 1, c) {
                None => {},
                Some(k) => if i < k < s.len() {
                    let t2 = toks2.push(SpecToken::Inquote(trim(s.subrange(i, k + 1))));
                    assert(commands_nonempty(t2)) by {
                        assert forall|j: int| 0 <= j < t2.len() implies (#[trigger] t2[j] matches SpecToken::Command(
                            x,
                        ) ==> x.len() > 0) by {
                            if j < toks2.len() {
                                assert(t2[j] == toks2[j]);
                            }
                        }
                    }
                    lex_commands_nonempty(s, k + 1, cmd2, t2);
                },
            }
        } else {
            lex_commands_nonempty(s, i + 1, cmd.push(c), toks);
        }
    }
}

/// Every command token that the tokenizer gives has some text: blank
/// command text between operators gives no token.
pub proof fn command_tokens_nonempty(s: Seq<char>)
    ensures
        spec_get_token(s) matches Ok(r) ==> commands_nonempty(r),
{
    lex_commands_nonempty(s, 0, Seq::empty(), Seq::empty());
}

/// After a change of directory, `PWD` is the new directory and `OLDPWD` the
/// one before it: the table that `update_pwd` leaves gives these to
/// `get_pwd` and `get_old_pwd`.
pub proof fn pwd_update_read_back(
    before: Map<Seq<char>, Seq<char>>,
    after: Map<Seq<char>, Seq<char>>,
    new_path: Seq<char>,
)
    requires
        after == before.insert("OLDPWD"@, before["PWD"@]).insert("PWD"@, new_path),
    ensures
        after["PWD"@] == new_path,
        after["OLDPWD"@] == before["PWD"@],
{
    crate::shell_variables::lemma_names_distinct();
}

/// Tokenizing text with no operator, quote or `$` from position `i` adds
/// the command text read so far and that text as one command token.
proof fn lex_plain(s: Seq<char>, i: int, cmd: Seq<char>, toks: Seq<SpecToken>)
    requires
        0 <= i <= s.len(),
        forall|k: int|
            i <= k < s.len() ==> !operator_char(#[trigger] s[k]) && s[k] != '$' && !crate::token::quote_char(
                s[k],
            ),
    ensures
        lex(s, i, cmd, toks) == Ok::<Seq<SpecToken>, SpecShellError>(flush_command(cmd + s.skip(i), toks).1),
    decreases s.len() - i,
{
    if i == s.len() {
        assert(cmd + s.skip(i) =~= cmd);
    } else {
        assert(!operator_char(s[i]) && s[i] != '$' && !crate::token::quote_char(s[i]));
        lex_plain(s, i + 1, cmd.push(s[i]), toks);
        assert(cmd.push(s[i]) + s.skip(i + 1) =~= cmd + s.skip(i));
    }
}

/// A line with no operator, quote or `$` is one command: its text trimmed,
/// or no token at all when it is blank.
pub proof fn plain_line_is_one_command(s: Seq<char>)
    requires
        forall|k: int|
            0 <= k < s.len() ==> !operator_char(#[trigger] s[k]) && s[k] != '$' && !crate::token::quote_char(
                s[k],
            ),
    ensures
        trim(s).len() > 0 ==> spec_get_token(s) == Ok::<Seq<SpecToken>, SpecShellError>(
            seq![SpecToken::Command(trim(s))],
        ),
        trim(s).len() == 0 ==> spec_get_token(s) == Ok::<Seq<SpecToken>, SpecShellError>(Seq::empty()),
{
    lex_plain(s, 0, Seq::empty(), Seq::empty());
    assert(Seq::<char>::empty() + s.skip(0) =~= s);
    if s.len() > 0 {
        assert(!operator_char(s[0]));
    }
    assert(Seq::<SpecToken>::empty().push(SpecToken::Command(trim(s))) =~= seq![SpecToken::Command(trim(s))]);
}

/// Every entry of the history that `get_history` gives has some text.
pub proof fn history_entries_nonempty(h: Seq<char>)
    ensures
        forall|k: int| 0 <= k < spec_history(h).len() ==> #[trigger] spec_history(h)[k].len() > 0,
{
    nonempty_members(lines(h));
    let n = nonempty(lines(h));
    assert forall|k: int| 0 <= k < spec_history(h).len() implies #[trigger] spec_history(h)[k].len() > 0 by {
        assert(spec_history(h)[k] == n[n.len() - 1 - k]);
    }
}

proof fn nonempty_members(p: Seq<Seq<char>>)
    ensures
        forall|k: int| 0 <= k < nonempty(p).len() ==> #[trigger] nonempty(p)[k].len() > 0,
    decreases p.len(),
{
    if p.len() > 0 {
        nonempty_members(p.drop_last());
        let r = nonempty(p.drop_last());
        if p.last().len() > 0 {
            assert forall|k: int| 0 <= k < nonempty(p).len() implies #[trigger] nonempty(p)[k].len() > 0 by {
                if k < r.len() {
                    assert(nonempty(p)[k] == r[k]);
                }
            }
        }
    }
}

/// Expansion leaves no variable token: each becomes a command, so what
/// `expand_variables` gives can be built into instructions.
pub proof fn expansion_removes_variables(v: SpecVariables, toks: Seq<SpecToken>, i: int)
    requires
        0 <= i <= toks.len(),
    ensures
        spec_expand_variables(v, toks, i) matches Ok(r) ==> forall|k: int|
            0 <= k < r.len() ==> !(#[trigger] r[k] is Variable),
    decreases toks.len() - i,
{
    if i < toks.len() {
        expansion_removes_variables(v, toks, i + 1);
        if let Ok(t) = spec_expand_token(v, toks[i]) {
            assert(!(t is Variable));
            if let Ok(r) = spec_expand_variables(v, toks, i + 1) {
                let out = seq![t] + r;
                assert forall|k: int| 0 <= k < out.len() implies !(#[trigger] out[k] is Variable) by {
                    if k > 0 {
                        assert(out[k] == r[k - 1]);
                    }
                }
            }
        }
    }
}

/// The number of semicolons in `s`.
pub open spec fn semicolon_count(s: Seq<SpecToken>) -> nat
    decreases s.len(),
{
    if s.len() == 0 {
        0
    } else if s.last() == logic(TokenLogic::SemiColon) {
        semicolon_count(s.drop_last()) + 1
    } else {
        semicolon_count(s.drop_last())
    }
}

/// Groups of tokens joined back with a semicolon between each two.
pub open spec fn join_semicolons(g: Seq<Seq<SpecToken>>) -> Seq<SpecToken>
    decreases g.len(),
{
    if g.len() == 0 {
        Seq::empty()
    } else if g.len() == 1 {
        g[0]
    } else {
        join_semicolons(g.drop_last()) + seq![logic(TokenLogic::SemiColon)] + g.last()
    }
}

proof fn split_semicolons_round_trip(s: Seq<SpecToken>)
    ensures
        join_semicolons(split_semicolons(s)) == s,
        split_semicolons(s).len() == semicolon_count(s) + 1,
        split_semicolons(s).last().len() == 0 <==> (s.len() == 0 || s.last() == logic(TokenLogic::SemiColon)),
    decreases s.len(),
{
    lemma_split_semicolons_nonempty(s);
    if s.len() == 0 {
        assert(split_semicolons(s) =~= seq![Seq::<SpecToken>::empty()]);
    } else {
        let init = s.drop_last();
        let x = s.last();
        split_semicolons_round_trip(init);
        lemma_split_semicolons_nonempty(init);
        let r = split_semicolons(init);
        if x == logic(TokenLogic::SemiColon) {
            let p = r.push(Seq::empty());
            assert(p.drop_last() =~= r);
            assert(join_semicolons(p) == join_semicolons(r) + seq![logic(TokenLogic::SemiColon)] + Seq::<SpecToken>::empty());
            assert(join_semicolons(p) =~= s);
        } else {
            let p = r.update(r.len() - 1, r.last().push(x));
            if r.len() == 1 {
                assert(join_semicolons(p) == p[0]);
                assert(join_semicolons(r) == r[0]);
                assert(s =~= init.push(x));
                assert(p[0] =~= s);
            } else {
                assert(p.drop_last() =~= r.drop_last());
                assert(join_semicolons(p) == join_semicolons(r.drop_last()) + seq![logic(TokenLogic::SemiColon)] + r.last().push(x));
                assert(join_semicolons(r) == join_semicolons(r.drop_last()) + seq![logic(TokenLogic::SemiColon)] + r.last());
                assert(s =~= init.push(x));
                assert((join_semicolons(r.drop_last()) + seq![logic(TokenLogic::SemiColon)] + r.last()).push(x)
                    =~= join_semicolons(r.drop_last()) + seq![logic(TokenLogic::SemiColon)] + r.last().push(x));
                assert(join_semicolons(p) =~= s);
            }
        }
    }
}

/// Dividing a line at its semicolons gives one instruction per semicolon,
/// plus one when the tokens do not end with a semicolon (and are not
/// empty); joining the instructions back with semicolons, and adding the
/// final semicolon when there was one, gives the tokens back.
pub proof fn divide_round_trip(s: Seq<SpecToken>)
    ensures
        spec_divide_tokens(s).len() == semicolon_count(s) + (if s.len() > 0 && s.last() != logic(
            TokenLogic::SemiColon,
        ) {
            1int
        } else {
            0int
        }),
        (if s.len() > 0 && s.last() == logic(TokenLogic::SemiColon) {
            join_semicolons(spec_divide_tokens(s)) + seq![logic(TokenLogic::SemiColon)]
        } else {
            join_semicolons(spec_divide_tokens(s))
        }) == s,
{
    split_semicolons_round_trip(s);
    let p = split_semicolons(s);
    if p.last().len() == 0 {
        if s.len() == 0 {
            assert(p =~= seq![Seq::<SpecToken>::empty()]);
            assert(p.drop_last() =~= Seq::<Seq<SpecToken>>::empty());
        } else {
            assert(p.len() >= 2);
            assert(join_semicolons(p) == join_semicolons(p.drop_last()) + seq![logic(TokenLogic::SemiColon)] + p.last());
            assert(join_semicolons(p.drop_last()) + seq![logic(TokenLogic::SemiColon)] + p.last() =~= join_semicolons(
                p.drop_last(),
            ) + seq![logic(TokenLogic::SemiColon)]);
        }
    }
}

/// Pattern expansion keeps every token that is not a pattern, in order: a
/// line without pattern tokens comes out unchanged.
pub proof fn expansion_without_patterns(toks: Seq<SpecToken>, expansions: Seq<Seq<Seq<char>>>)
    requires
        forall|k: int| 0 <= k < toks.len() ==> !is_pattern_token(#[trigger] toks[k]),
    ensures
        spec_expand_command(toks, expansions) == toks,
        pattern_texts(toks).len() == 0,
    decreases toks.len(),
{
    if toks.len() > 0 {
        let init = toks.drop_last();
        assert forall|k: int| 0 <= k < init.len() implies !is_pattern_token(#[trigger] init[k]) by {
            assert(init[k] == toks[k]);
        }
        expansion_without_patterns(init, expansions);
        assert(!is_pattern_token(toks[toks.len() - 1]));
        assert(init.push(toks.last()) =~= toks);
    }
}

/// A bracket set `[s]` (with `s` non-empty and free of `]`) matches any one
/// character of `s`, the first one included, and then the rest of the
/// pattern must match the rest of the text; a character outside `s` (other
/// than `[` itself) is not matched.
pub proof fn bracket_set_matches_its_members(s: Seq<char>, rest: Seq<char>, x: char, u: Seq<char>)
    requires
        s.len() > 0,
        !s.contains(']'),
    ensures
        s.contains(x) ==> (spec_match(seq!['['] + s + seq![']'] + rest, seq![x] + u) <==> spec_match(rest, u)),
        !s.contains(x) && x != '[' ==> !spec_match(seq!['['] + s + seq![']'] + rest, seq![x] + u),
{
    let p = seq!['['] + s + seq![']'] + rest;
    let t = seq![x] + u;
    let n = s.len() as int;
    assert(p[0] == '[');
    assert(p[n + 1] == ']');
    lemma_find_from(p, ']', 0);
    let f = find_from(p, ']', 0);
    if f > n + 1 {
        assert(p[n + 1] != ']');
    }
    if f < n + 1 {
        assert(p[f] == ']');
        if f > 0 {
            assert(p[f] == s[f - 1]);
            assert(s.contains(']'));
        }
    }
    assert(f == n + 1);
    assert(p.subrange(1, f) =~= s);
    assert(t[0] == x);
    assert(t.drop_first() =~= u);
    assert(p.skip(f + 1) =~= rest);
    assert(p.drop_first()[0] == s[0]);
}

/// `trim_end` gives a prefix of its argument.
proof fn trim_end_prefix(y: Seq<char>)
    ensures
        trim_end(y).len() <= y.len(),
        trim_end(y) == y.take(trim_end(y).len() as int),
    decreases y.len(),
{
    if y.len() > 0 && is_ws(y.last()) {
        trim_end_prefix(y.drop_last());
        assert(y.drop_last().take(trim_end(y).len() as int) =~= y.take(trim_end(y).len() as int));
    } else {
        assert(y.take(y.len() as int) =~= y);
    }
}

/// `trim_start` gives a text that does not start with whitespace.
proof fn trim_start_first(y: Seq<char>)
    ensures
        trim_start(y).len() > 0 ==> !is_ws(trim_start(y)[0]),
    decreases y.len(),
{
    if y.len() > 0 && is_ws(y[0]) {
        trim_start_first(y.drop_first());
    }
}

/// Trimmed text neither starts nor ends with whitespace.
pub proof fn trim_has_no_outer_whitespace(x: Seq<char>)
    ensures
        trim(x).len() > 0 ==> !is_ws(trim(x)[0]) && !is_ws(trim(x).last()),
{
    let y = trim_start(x);
    trim_start_first(x);
    trim_end_prefix(y);
    trim_end_last(y);
    if trim(x).len() > 0 {
        assert(trim(x)[0] == y[0]);
    }
}

/// Whether every variable token of `toks` has a name that neither starts
/// nor ends with whitespace.
pub open spec fn variables_trimmed(toks: Seq<SpecToken>) -> bool {
    forall|k: int|
        0 <= k < toks.len() ==> (#[trigger] toks[k] matches SpecToken::Variable(n) ==> n.len() == 0 || (!is_ws(
            n[0],
        ) && !is_ws(n.last())))
}

proof fn lex_variables_trimmed(s: Seq<char>, i: int, cmd: Seq<char>, toks: Seq<SpecToken>)
    requires
        variables_trimmed(toks),
    ensures
        lex(s, i, cmd, toks) matches Ok(r) ==> variables_trimmed(r),
    decreases s.len() - i,
{
    let (cmd2, toks2) = flush_command(cmd, toks);
    assert(variables_trimmed(toks2)) by {
        if trim(cmd).len() > 0 {
            assert forall|k: int| 0 <= k < toks2.len() implies (#[trigger] toks2[k] matches SpecToken::Variable(
                n,
            ) ==> n.len() == 0 || (!is_ws(n[0]) && !is_ws(n.last()))) by {
                if k < toks.len() {
                    assert(toks2[k] == toks[k]);
                }
            }
        }
    }
    if 0 <= i < s.len() {
        let c = s[i];
        if operator_char(c) {
            let (t, n) = operator_at(s, i);
            let t2 = toks2.push(t);
            assert(variables_trimmed(t2)) by {
                assert forall|k: int| 0 <= k < t2.len() implies (#[trigger] t2[k] matches SpecToken::Variable(
                    m,
                ) ==> m.len() == 0 || (!is_ws(m[0]) && !is_ws(m.last()))) by {
                    if k < toks2.len() {
                        assert(t2[k] == toks2[k]);
                    }
                }
            }
            if i + n <= s.len() {
                lex_variables_trimmed(s, i + n, cmd2, t2);
            }
        } else if c == '$' {
            let e = var_end(s, i + 1);
            let name = s.subrange(i + 1, e);
            trim_has_no_outer_whitespace(name);
            let t = if name.len() == 0 {
                SpecToken::Command(seq!['$'])
            } else {
                SpecToken::Variable(trim(name))
            };
            let t2 = toks2.push(t);
            assert(variables_trimmed(t2)) by {
                assert forall|k: int| 0 <= k < t2.len() implies (#[trigger] t2[k] matches SpecToken::Variable(
                    m,
                ) ==> m.len() == 0 || (!is_ws(m[0]) && !is_ws(m.last()))) by {
                    if k < toks2.len() {
                        assert(t2[k] == toks2[k]);
                    }
                }
            }
            if i < e <= s.len() {
                lex_variables_trimmed(s, e, cmd2, t2);
            }
        } else if quote_char(c) {
            match crate::command_parser::quote_close(s, i + 1, c) {
                None => {},
                Some(k) => if i < k < s.len() {
                    let t2 = toks2.push(SpecToken::Inquote(trim(s.subrange(i, k + 1))));
                    assert(variables_trimmed(t2)) by {
                        assert forall|j: int| 0 <= j < t2.len() implies (#[trigger] t2[j] matches SpecToken::Variable(
                            m,
                        ) ==> m.len() == 0 || (!is_ws(m[0]) && !is_ws(m.last()))) by {
                            if j < toks2.len() {
                                assert(t2[j] == toks2[j]);
                            }
                        }
                    }
                    lex_variables_trimmed(s, k + 1, cmd2, t2);
                },
            }
        } else {
            lex_variables_trimmed(s, i + 1, cmd.push(c), toks);
        }
    }
}

/// Every variable token that the tokenizer gives has a name that neither
/// starts nor ends with whitespace: `echo $HOME | cat` names `HOME`, not
/// `HOME `.
pub proof fn variable_names_are_trimmed(s: Seq<char>)
    ensures
        spec_get_token(s) matches Ok(r) ==> variables_trimmed(r),
{
    lex_variables_trimmed(s, 0, Seq::empty(), Seq::empty());
}

} // verus!
