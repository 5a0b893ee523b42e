//! Filename patterns: brace alternatives (`a{b,c}d`), and the wildcards
//! `*`, `?` and `[...]`.
use vstd::prelude::*;
use crate::text::{chars_of, char_pred, split_pieces, split_chars, string_from_chars, char_vecs_view, strings_view, lemma_split_pieces_nonempty, nonempty, lemma_nonempty_push, push_char};
use crate::shell_variables::join_path;
use crate::token::{Token, TokenNotOperator, SpecToken, tokens_view};

verus! {

/// The first position at or after `j` that holds `c`, or the length of `s`.
pub open spec fn find_from(s: Seq<char>, c: char, j: int) -> int
    decreases s.len() - j,
{
    if j < 0 || j >= s.len() {
        s.len() as int
    } else if s[j] == c {
        j
    } else {
        find_from(s, c, j + 1)
    }
}

pub proof fn lemma_find_from(s: Seq<char>, c: char, j: int)
    requires
        0 <= j <= s.len(),
    ensures
        j <= find_from(s, c, j) <= s.len(),
        find_from(s, c, j) < s.len() ==> s[find_from(s, c, j)] == c,
        forall|k: int| j <= k < find_from(s, c, j) ==> s[k] != c,
    decreases s.len() - j,
{
    if j < s.len() && s[j] != c {
        lemma_find_from(s, c, j + 1);
    }
}

/// Whether a pattern holds one of the characters `[ { * ?`.
pub open spec fn spec_has_regex(s: Seq<char>) -> bool {
    s.contains('[') || s.contains('{') || s.contains('*') || s.contains('?')
}

/// The strings that a pattern stands for once its braces are expanded: the
/// first `{` and the first `}` after it delimit alternatives separated by
/// commas; each alternative, put between the text before the `{` and the
/// text after the `}`, is expanded in turn. A pattern without such a pair
/// stands for itself.
pub open spec fn spec_match_braces(s: Seq<char>) -> Seq<Seq<char>>
    decreases s.len(), 1int, 0int,
{
    let a = find_from(s, '{', 0);
    if a >= s.len() {
        seq![s]
    } else {
        let b = find_from(s, '}', a);
        if b >= s.len() || b <= a {
            seq![s]
        } else {
            expand_alternatives(
                s.subrange(0, a),
                split_pieces(s.subrange(a + 1, b), char_pred(',')),
                s.subrange(b + 1, s.len() as int),
                s.len(),
            )
        }
    }
}

/// The expansions of `before + p + after` for each alternative `p` in
/// `pieces`, in order and concatenated; `bound` is the length of the pattern
/// they come from, which each of them is shorter than.
pub open spec fn expand_alternatives(
    before: Seq<char>,
    pieces: Seq<Seq<char>>,
    after: Seq<char>,
    bound: nat,
) -> Seq<Seq<char>>
    decreases bound, 0int, pieces.len(),
{
    if pieces.len() == 0 {
        Seq::empty()
    } else {
        let first = before + pieces[0] + after;
        let rest = expand_alternatives(before, pieces.drop_first(), after, bound);
        if first.len() < bound {
            spec_match_braces(first) + rest
        } else {
            rest
        }
    }
}

/// The position that follows the bracket expression at the start of `p`
/// when it holds the first character of `t`: the first `]` of `p` closes
/// it, and the characters between `p[0]` and that `]` are the set.
pub open spec fn spec_match_brackets(p: Seq<char>, t: Seq<char>) -> Option<int> {
    if t.len() == 0 {
        None
    } else {
        let i = find_from(p, ']', 0);
        if i >= p.len() || i < 1 {
            None
        } else if p.subrange(1, i).contains(t[0]) {
            Some(i + 1)
        } else {
            None
        }
    }
}

/// Whether the pattern `p` matches the whole text `t`: `*` matches any run
/// of characters, `?` any one character, `[set]` one character of the set
/// (a `[` with no set that holds the character matches itself), and any
/// other character itself.
pub open spec fn spec_match(p: Seq<char>, t: Seq<char>) -> bool
    decreases p.len() + t.len(),
{
    if p.len() == 0 {
        t.len() == 0
    } else if p[0] == '*' {
        spec_match(p.drop_first(), t) || (t.len() > 0 && spec_match(p, t.drop_first()))
    } else if p[0] == '?' {
        t.len() > 0 && spec_match(p.drop_first(), t.drop_first())
    } else if p[0] == '[' {
        match spec_match_brackets(p, t) {
            Some(k) => if 2 <= k <= p.len() && t.len() > 0 {
                spec_match(p.skip(k), t.drop_first())
            } else {
                false
            },
            None => t.len() > 0 && t[0] == p[0] && spec_match(p.drop_first(), t.drop_first()),
        }
    } else {
        t.len() > 0 && p[0] == t[0] && spec_match(p.drop_first(), t.drop_first())
    }
}

/// Whether `s` holds one of the pattern characters `[ { * ?`.
pub fn has_regex_expression(to_match: &str) -> (b: bool)
    ensures
        b == spec_has_regex(to_match@),
{
    let v = chars_of(to_match);
    let mut i: usize = 0;
    while i < v.len()
        invariant
            i <= v.len(),
            v@ == to_match@,
            forall|k: int| 0 <= k < i ==> v@[k] != '[' && v@[k] != '{' && v@[k] != '*' && v@[k] != '?',
        decreases v.len() - i,
    {
        let c = v[i];
        if c == '[' || c == '{' || c == '*' || c == '?' {
            proof {
                assert(v@[i as int] == c);
            }
            return true;
        }
        i = i + 1;
    }
    proof {
        if spec_has_regex(v@) {
            if v@.contains('[') {
                let k = choose|k: int| 0 <= k < v@.len() && v@[k] == '[';
                assert(v@[k] != '[');
            }
            if v@.contains('{') {
                let k = choose|k: int| 0 <= k < v@.len() && v@[k] == '{';
                assert(v@[k] != '{');
            }
            if v@.contains('*') {
                let k = choose|k: int| 0 <= k < v@.len() && v@[k] == '*';
                assert(v@[k] != '*');
            }
            if v@.contains('?') {
                let k = choose|k: int| 0 <= k < v@.len() && v@[k] == '?';
                assert(v@[k] != '?');
            }
        }
    }
    false
}

/// The first position at or after `j` that holds `c`, or the length.
fn find_char(v: &Vec<char>, c: char, j: usize) -> (r: usize)
    requires
        j <= v.len(),
    ensures
        r == find_from(v@, c, j as int),
{
    let mut k = j;
    proof {
        lemma_find_from(v@, c, j as int);
    }
    while k < v.len() && v[k] != c
        invariant
            j <= k <= v.len(),
            find_from(v@, c, j as int) == find_from(v@, c, k as int),
        decreases v.len() - k,
    {
        k = k + 1;
    }
    k
}

/// Expands the braces of a pattern, as `spec_match_braces` says.
pub fn match_braces(to_match: &str) -> (res: Vec<String>)
    ensures
        strings_view(res@) == spec_match_braces(to_match@),
    decreases to_match@.len(),
{
    let s = chars_of(to_match);
    let n = s.len();
    let a = find_char(&s, '{', 0);
    proof {
        lemma_find_from(s@, '{', 0);
    }
    if a < n {
        let b = find_char(&s, '}', a);
        proof {
            lemma_find_from(s@, '}', a as int);
        }
        if b < n {
            let mut inside: Vec<char> = Vec::new();
            let mut k = a + 1;
            while k < b
                invariant
                    a < k <= b < n == s.len(),
                    inside@ == s@.subrange(a + 1, k as int),
                decreases b - k,
            {
                inside.push(s[k]);
                k = k + 1;
                proof {
                    assert(inside@ =~= s@.subrange(a + 1, k as int));
                }
            }
            let pieces = split_chars(&inside, ',');
            let ghost before = s@.subrange(0, a as int);
            let ghost after = s@.subrange(b + 1, n as int);
            let ghost all_pieces = split_pieces(s@.subrange(a + 1, b as int), char_pred(','));
            let mut possible_targets: Vec<String> = Vec::new();
            let mut p: usize = 0;
            proof {
                assert(all_pieces.skip(0) =~= all_pieces);
                assert(strings_view(possible_targets@) =~= Seq::<Seq<char>>::empty());
            }
            while p < pieces.len()
                invariant
                    n == s.len(),
                    s@ == to_match@,
                    a < b < n,
                    p <= pieces.len(),
                    char_vecs_view(pieces@) == all_pieces,
                    before == s@.subrange(0, a as int),
                    after == s@.subrange(b + 1, n as int),
                    all_pieces == split_pieces(s@.subrange(a + 1, b as int), char_pred(',')),
                    spec_match_braces(s@) == strings_view(possible_targets@) + expand_alternatives(
                        before,
                        all_pieces.skip(p as int),
                        after,
                        s@.len(),
                    ),
                decreases pieces.len() - p,
            {
                let mut candidate: Vec<char> = Vec::new();
                let mut q: usize = 0;
                while q < a
                    invariant
                        q <= a < n == s.len(),
                        candidate@ == s@.subrange(0, q as int),
                    decreases a - q,
                {
                    candidate.push(s[q]);
                    q = q + 1;
                    proof {
                        assert(candidate@ =~= s@.subrange(0, q as int));
                    }
                }
                let piece = &pieces[p];
                let mut r: usize = 0;
                while r < piece.len()
                    invariant
                        r <= piece.len(),
                        candidate@ == before + piece@.subrange(0, r as int),
                    decreases piece.len() - r,
                {
                    candidate.push(piece[r]);
                    r = r + 1;
                    proof {
                        assert(candidate@ =~= before + piece@.subrange(0, r as int));
                    }
                }
                let mut u = b + 1;
                while u < n
                    invariant
                        b < u <= n == s.len(),
                        candidate@ == before + piece@ + s@.subrange(b + 1, u as int),
                    decreases n - u,
                {
                    candidate.push(s[u]);
                    u = u + 1;
                    proof {
                        assert(candidate@ =~= before + piece@ + s@.subrange(b + 1, u as int));
                    }
                }
                proof {
                    assert(piece@.subrange(0, piece@.len() as int) =~= piece@);
                    assert(piece@ == all_pieces[p as int]);
                    assert(all_pieces.skip(p as int).drop_first() =~= all_pieces.skip(p + 1));
                    assert(all_pieces.skip(p as int)[0] == all_pieces[p as int]);
                    lemma_piece_len(s@.subrange(a + 1, b as int), ',', p as int);
                }
                let text = string_from_chars(&candidate);
                let expanded = match_braces(text.as_str());
                let ghost old_targets = possible_targets@;
                let mut e: usize = 0;
                while e < expanded.len()
                    invariant
                        e <= expanded.len(),
                        strings_view(possible_targets@) == strings_view(old_targets) + strings_view(
                            expanded@,
                        ).subrange(0, e as int),
                    decreases expanded.len() - e,
                {
                    let ghost before_push = possible_targets@;
                    let x = expanded[e].clone();
                    possible_targets.push(x);
                    proof {
                        assert(strings_view(possible_targets@) =~= strings_view(before_push).push(x@));
                        assert(x@ == strings_view(expanded@)[e as int]);
                        assert(strings_view(expanded@).subrange(0, e + 1) =~= strings_view(expanded@).subrange(0, e as int).push(x@));
                    }
                    e = e + 1;
                    proof {
                        assert(strings_view(possible_targets@) =~= strings_view(old_targets)
                            + strings_view(expanded@).subrange(0, e as int));
                    }
                }
                proof {
                    assert(strings_view(expanded@).subrange(0, e as int) =~= strings_view(expanded@));
                    assert(strings_view(possible_targets@) + expand_alternatives(
                        before,
                        all_pieces.skip(p + 1),
                        after,
                        s@.len(),
                    ) =~= strings_view(old_targets) + expand_alternatives(
                        before,
                        all_pieces.skip(p as int),
                        after,
                        s@.len(),
                    ));
                }
                p = p + 1;
            }
            proof {
                assert(all_pieces.skip(p as int).len() == 0);
                assert(strings_view(possible_targets@) + Seq::<Seq<char>>::empty() =~= strings_view(
                    possible_targets@,
                ));
            }
            return possible_targets;
        }
    }
    let mut one: Vec<String> = Vec::new();
    one.push(string_from_chars(&s));
    proof {
        assert(strings_view(one@) =~= seq![to_match@]);
    }
    one
}

/// Each piece of a split is no longer than the split text.
pub proof fn lemma_piece_len(s: Seq<char>, sep: char, i: int)
    requires
        0 <= i < split_pieces(s, char_pred(sep)).len(),
    ensures
        split_pieces(s, char_pred(sep))[i].len() <= s.len(),
    decreases s.len(),
{
    if s.len() > 0 {
        let r = split_pieces(s.drop_last(), char_pred(sep));
        lemma_split_pieces_nonempty(s.drop_last(), char_pred(sep));
        if i < r.len() {
            lemma_piece_len(s.drop_last(), sep, i);
        } else if i == r.len() - 1 {
            lemma_piece_len(s.drop_last(), sep, i);
        }
        if !char_pred(sep)(s.last()) && i == r.len() - 1 {
            lemma_piece_len(s.drop_last(), sep, i);
        }
    }
}

/// The bracket expression at the start of `p`, as `spec_match_brackets` says.
/// A `p` that starts with `]` while `t` is not empty is left out: the set
/// would run from position 1 to position 0.
pub fn match_brackets(to_match: &[char], target: &[char]) -> (res: Option<usize>)
    requires
        !(target@.len() > 0 && to_match@.len() > 0 && to_match@[0] == ']'),
    ensures
        match res {
            Some(k) => spec_match_brackets(to_match@, target@) == Some(k as int),
            None => spec_match_brackets(to_match@, target@) is None,
        },
{
    if target.len() == 0 {
        return None;
    }
    let mut i: usize = 0;
    proof {
        lemma_find_from(to_match@, ']', 0);
    }
    while i < to_match.len() && to_match[i] != ']'
        invariant
            i <= to_match@.len(),
            find_from(to_match@, ']', 0) == find_from(to_match@, ']', i as int),
        decreases to_match@.len() - i,
    {
        i = i + 1;
    }
    if i == to_match.len() {
        return None;
    }
    proof {
        assert(find_from(to_match@, ']', i as int) == i);
        assert(i >= 1);
    }
    let c = target[0];
    let mut k: usize = 1;
    while k < i
        invariant
            1 <= i < to_match@.len(),
            find_from(to_match@, ']', 0) == i,
            target@.len() > 0,
            c == target@[0],
            1 <= k <= i,
            forall|m: int| 1 <= m < k ==> to_match@[m] != c,
        decreases i - k,
    {
        if to_match[k] == c {
            proof {
                assert(to_match@.subrange(1, i as int)[k - 1] == c);
            }
            return Some(i + 1);
        }
        k = k + 1;
    }
    proof {
        if to_match@.subrange(1, i as int).contains(c) {
            let m = choose|m: int|
                0 <= m < to_match@.subrange(1, i as int).len() && to_match@.subrange(
                    1,
                    i as int,
                )[m] == c;
            assert(to_match@[m + 1] == c);
        }
    }
    None
}

/// Whether `p[i..]` matches `t[j..]`.
fn match_from(p: &[char], i: usize, t: &[char], j: usize) -> (b: bool)
    requires
        i <= p@.len(),
        j <= t@.len(),
    ensures
        b == spec_match(p@.skip(i as int), t@.skip(j as int)),
    decreases p@.len() - i + t@.len() - j,
{
    let ghost ps = p@.skip(i as int);
    let ghost ts = t@.skip(j as int);
    if i == p.len() {
        return j == t.len();
    }
    proof {
        assert(ps[0] == p@[i as int]);
        assert(ps.drop_first() =~= p@.skip(i + 1));
        if j < t@.len() {
            assert(ts[0] == t@[j as int]);
            assert(ts.drop_first() =~= t@.skip(j + 1));
        }
    }
    let c = p[i];
    if c == '*' {
        if match_from(p, i + 1, t, j) {
            return true;
        }
        return j < t.len() && match_from(p, i, t, j + 1);
    }
    if c == '?' {
        return j < t.len() && match_from(p, i + 1, t, j + 1);
    }
    if c == '[' {
        let r = match_brackets_at(p, i, t, j);
        match r {
            Some(k) => {
                proof {
                    assert(j < t@.len());
                    assert(p@.skip(i as int).skip(k as int) =~= p@.skip(i + k));
                }
                return j < t.len() && match_from(p, i + k, t, j + 1);
            },
            None => {
                return j < t.len() && t[j] == c && match_from(p, i + 1, t, j + 1);
            },
        }
    }
    j < t.len() && c == t[j] && match_from(p, i + 1, t, j + 1)
}

/// `spec_match_brackets(p[i..], t[j..])`, where `p[i]` is `[`.
fn match_brackets_at(p: &[char], i: usize, t: &[char], j: usize) -> (res: Option<usize>)
    requires
        i < p@.len(),
        p@[i as int] == '[',
        j <= t@.len(),
    ensures
        match res {
            Some(k) => spec_match_brackets(p@.skip(i as int), t@.skip(j as int)) == Some(k as int)
                && 2 <= k && i + k <= p@.len() && j < t@.len(),
            None => spec_match_brackets(p@.skip(i as int), t@.skip(j as int)) is None,
        },
{
    let ghost ps = p@.skip(i as int);
    let ghost ts = t@.skip(j as int);
    if j == t.len() {
        return None;
    }
    let mut e: usize = i;
    proof {
        lemma_find_from(ps, ']', 0);
    }
    while e < p.len() && p[e] != ']'
        invariant
            i <= e <= p@.len(),
            ps == p@.skip(i as int),
            find_from(ps, ']', 0) == find_from(ps, ']', e - i),
        decreases p@.len() - e,
    {
        proof {
            assert(ps[e - i] == p@[e as int]);
        }
        e = e + 1;
    }
    proof {
        lemma_find_from(ps, ']', e - i);
        if e < p@.len() {
            assert(ps[e - i] == p@[e as int]);
        }
    }
    if e == p.len() {
        return None;
    }
    let c = t[j];
    proof {
        assert(ts[0] == c);
        assert(e > i);
        assert(find_from(ps, ']', e - i) == e - i);
    }
    let mut k: usize = i + 1;
    while k < e
        invariant
            i < e < p@.len(),
            i + 1 <= k <= e,
            ps == p@.skip(i as int),
            find_from(ps, ']', 0) == e - i,
            ts == t@.skip(j as int),
            j < t@.len(),
            ts[0] == c,
            forall|m: int| i + 1 <= m < k ==> p@[m] != c,
        decreases e - k,
    {
        if p[k] == c {
            proof {
                assert(ps.subrange(1, e - i)[k - i - 1] == c);
            }
            return Some(e - i + 1);
        }
        k = k + 1;
    }
    proof {
        if ps.subrange(1, e - i).contains(c) {
            let sub = ps.subrange(1, e - i);
            let m = choose|m: int| 0 <= m < sub.len() && #[trigger] sub[m] == c;
            assert(p@[m + i + 1] == c);
        }
    }
    None
}

/// Whether the pattern matches the whole text, as `spec_match` says.
pub fn match_regex_expression(to_match: &[char], target: &[char]) -> (b: bool)
    ensures
        b == spec_match(to_match@, target@),
{
    proof {
        assert(to_match@.skip(0) =~= to_match@);
        assert(target@.skip(0) =~= target@);
    }
    match_from(to_match, 0, target, 0)
}


/// The names of a listing that the pattern matches, each joined to `dir`,
/// in order.
pub open spec fn matching_joined(dir: Seq<char>, alt: Seq<char>, names: Seq<Seq<char>>) -> Seq<Seq<char>>
    decreases names.len(),
{
    if names.len() == 0 {
        Seq::empty()
    } else if spec_match(alt, names.last()) {
        matching_joined(dir, alt, names.drop_last()).push(join_path(dir, names.last()))
    } else {
        matching_joined(dir, alt, names.drop_last())
    }
}

/// What one alternative of a path piece gives inside one directory: the
/// matching entries of the directory when the alternative is a pattern
/// (nothing when the directory cannot be read), else the alternative itself
/// joined to the directory.
pub open spec fn expand_one(dir: Seq<char>, alt: Seq<char>, listing: Option<Seq<Seq<char>>>) -> Seq<Seq<char>> {
    if spec_has_regex(alt) {
        match listing {
            Some(names) => matching_joined(dir, alt, names),
            None => Seq::empty(),
        }
    } else {
        seq![join_path(dir, alt)]
    }
}

/// What all the alternatives give inside one directory, in order.
pub open spec fn expand_alts(dir: Seq<char>, alts: Seq<Seq<char>>, listing: Option<Seq<Seq<char>>>) -> Seq<Seq<char>>
    decreases alts.len(),
{
    if alts.len() == 0 {
        Seq::empty()
    } else {
        expand_alts(dir, alts.drop_last(), listing) + expand_one(dir, alts.last(), listing)
    }
}

/// One step of the expansion of a path pattern: for each candidate
/// directory in turn, what the alternatives of the piece give inside it.
pub open spec fn spec_expand_partial(
    dirs: Seq<Seq<char>>,
    alts: Seq<Seq<char>>,
    listings: Seq<Option<Seq<Seq<char>>>>,
) -> Seq<Seq<char>>
    decreases dirs.len(),
{
    if dirs.len() == 0 || listings.len() == 0 {
        Seq::empty()
    } else {
        spec_expand_partial(dirs.drop_last(), alts, listings.drop_last()) + expand_alts(
            dirs.last(),
            alts,
            listings.last(),
        )
    }
}

/// The characters of each listing, where there is one.
pub open spec fn listings_view(v: Seq<Option<Vec<String>>>) -> Seq<Option<Seq<Seq<char>>>> {
    v.map_values(|o: Option<Vec<String>>| match o {
        Some(l) => Some(strings_view(l@)),
        None => None,
    })
}

/// The non-empty pieces of a path pattern between its `/`.
pub fn glob_parts(var_name: &str) -> (res: Vec<String>)
    ensures
        strings_view(res@) == nonempty(split_pieces(var_name@, char_pred('/'))),
{
    let v = chars_of(var_name);
    let pieces = split_chars(&v, '/');
    let ghost ps = char_vecs_view(pieces@);
    let mut res: Vec<String> = Vec::new();
    let mut i: usize = 0;
    proof {
        assert(ps.take(0) =~= Seq::<Seq<char>>::empty());
    }
    while i < pieces.len()
        invariant
            i <= pieces.len(),
            ps == char_vecs_view(pieces@),
            strings_view(res@) == nonempty(ps.take(i as int)),
        decreases pieces.len() - i,
    {
        proof {
            assert(ps.take(i + 1) =~= ps.take(i as int).push(pieces@[i as int]@));
            lemma_nonempty_push(ps.take(i as int), pieces@[i as int]@);
        }
        if pieces[i].len() > 0 {
            let x = string_from_chars(&pieces[i]);
            let ghost before = res@;
            res.push(x);
            proof {
                assert(strings_view(res@) =~= strings_view(before).push(x@));
            }
        }
        i = i + 1;
    }
    proof {
        assert(ps.take(i as int) =~= ps);
    }
    res
}

/// `name` inside `dir`, as `join_path` says.
fn join_dir(dir: &String, name: &str) -> (res: String)
    ensures
        res@ == join_path(dir@, name@),
{
    let v = chars_of(dir.as_str());
    let mut r = dir.clone();
    let n = v.len();
    if !(n > 0 && v[n - 1] == '/') {
        push_char(&mut r, '/');
    }
    r.append(name);
    r
}

/// One step of the expansion of a path pattern, as `spec_expand_partial`
/// says: `listings[k]` holds the names in the directory `candidates[k]`, or
/// nothing when it cannot be read.
pub fn expand_partial(candidates: &Vec<String>, partial_path: &str, listings: &Vec<Option<Vec<String>>>) -> (res: Vec<String>)
    requires
        listings@.len() == candidates@.len(),
    ensures
        strings_view(res@) == spec_expand_partial(
            strings_view(candidates@),
            spec_match_braces(partial_path@),
            listings_view(listings@),
        ),
{
    let alts = match_braces(partial_path);
    let ghost alts_v = strings_view(alts@);
    let ghost ds = strings_view(candidates@);
    let ghost ls = listings_view(listings@);
    let mut next: Vec<String> = Vec::new();
    let mut c: usize = 0;
    proof {
        assert(ds.take(0) =~= Seq::<Seq<char>>::empty());
        assert(strings_view(next@) =~= Seq::<Seq<char>>::empty());
    }
    while c < candidates.len()
        invariant
            c <= candidates@.len(),
            listings@.len() == candidates@.len(),
            alts_v == strings_view(alts@),
            alts_v == spec_match_braces(partial_path@),
            ds == strings_view(candidates@),
            ls == listings_view(listings@),
            strings_view(next@) == spec_expand_partial(ds.take(c as int), alts_v, ls.take(c as int)),
        decreases candidates.len() - c,
    {
        let cand = &candidates[c];
        let ghost before_c = strings_view(next@);
        let mut a: usize = 0;
        proof {
            assert(alts_v.take(0) =~= Seq::<Seq<char>>::empty());
            assert(ls[c as int] == (match listings@[c as int] { Some(l) => Some(strings_view(l@)), None => None }));
            assert(before_c + expand_alts(cand@, alts_v.take(0), ls[c as int]) =~= before_c);
        }
        while a < alts.len()
            invariant
                a <= alts@.len(),
                c < candidates@.len(),
                listings@.len() == candidates@.len(),
                alts_v == strings_view(alts@),
                cand@ == ds[c as int],
                ds == strings_view(candidates@),
                ls == listings_view(listings@),
                ls[c as int] == (match listings@[c as int] { Some(l) => Some(strings_view(l@)), None => None }),
                strings_view(next@) == before_c + expand_alts(cand@, alts_v.take(a as int), ls[c as int]),
            decreases alts.len() - a,
        {
            let alt = alts[a].as_str();
            let ghost before_a = strings_view(next@);
            proof {
                assert(alts_v.take(a + 1).drop_last() =~= alts_v.take(a as int));
                assert(alts_v.take(a + 1).last() == alt@);
            }
            if has_regex_expression(alt) {
                match &listings[c] {
                    Some(names) => {
                        let alt_chars = chars_of(alt);
                        let mut k: usize = 0;
                        let ghost nv = strings_view(names@);
                        proof {
                            assert(nv.take(0) =~= Seq::<Seq<char>>::empty());
                            assert(before_a + matching_joined(cand@, alt@, nv.take(0)) =~= before_a);
                        }
                        while k < names.len()
                            invariant
                                k <= names@.len(),
                                nv == strings_view(names@),
                                alt_chars@ == alt@,
                                strings_view(next@) == before_a + matching_joined(cand@, alt@, nv.take(k as int)),
                            decreases names.len() - k,
                        {
                            let name_chars = chars_of(names[k].as_str());
                            proof {
                                assert(nv.take(k + 1).drop_last() =~= nv.take(k as int));
                                assert(nv.take(k + 1).last() == names@[k as int]@);
                            }
                            if match_regex_expression(alt_chars.as_slice(), name_chars.as_slice()) {
                                let j = join_dir(cand, names[k].as_str());
                                let ghost b = next@;
                                next.push(j);
                                proof {
                                    assert(strings_view(next@) =~= strings_view(b).push(j@));
                                }
                            }
                            k = k + 1;
                        }
                        proof {
                            assert(nv.take(k as int) =~= nv);
                        }
                    },
                    None => {},
                }
            } else {
                let j = join_dir(cand, alt);
                let ghost b = next@;
                next.push(j);
                proof {
                    assert(strings_view(next@) =~= strings_view(b).push(j@));
                }
            }
            proof {
                assert(strings_view(next@) =~= before_c + expand_alts(cand@, alts_v.take(a + 1), ls[c as int]));
            }
            a = a + 1;
        }
        proof {
            assert(alts_v.take(a as int) =~= alts_v);
            assert(ds.take(c + 1).drop_last() =~= ds.take(c as int));
            assert(ls.take(c + 1).drop_last() =~= ls.take(c as int));
            assert(ds.take(c + 1).last() == cand@);
            assert(ls.take(c + 1).last() == ls[c as int]);
        }
        c = c + 1;
    }
    proof {
        assert(ds.take(c as int) =~= ds);
        assert(ls.take(c as int) =~= ls);
    }
    next
}

/// Whether a token is a command that holds a pattern character.
pub open spec fn is_pattern_token(t: SpecToken) -> bool {
    t matches SpecToken::Command(c) && spec_has_regex(c)
}

/// The texts of the pattern tokens, in order.
pub open spec fn pattern_texts(toks: Seq<SpecToken>) -> Seq<Seq<char>>
    decreases toks.len(),
{
    if toks.len() == 0 {
        Seq::empty()
    } else {
        let r = pattern_texts(toks.drop_last());
        if is_pattern_token(toks.last()) {
            r.push(toks.last()->Command_0)
        } else {
            r
        }
    }
}

/// The command tokens of a list of paths.
pub open spec fn path_commands(paths: Seq<Seq<char>>) -> Seq<SpecToken> {
    paths.map_values(|p: Seq<char>| SpecToken::Command(p))
}

/// The tokens with each pattern token replaced, in place, by one command
/// token per path of its expansion (`expansions[k]` for the `k`-th pattern
/// token); every other token is kept, in order.
pub open spec fn spec_expand_command(toks: Seq<SpecToken>, expansions: Seq<Seq<Seq<char>>>) -> Seq<SpecToken>
    decreases toks.len(),
{
    if toks.len() == 0 {
        Seq::empty()
    } else {
        let r = spec_expand_command(toks.drop_last(), expansions);
        if is_pattern_token(toks.last()) {
            r + path_commands(expansions[pattern_texts(toks.drop_last()).len() as int])
        } else {
            r.push(toks.last())
        }
    }
}

/// The texts of the pattern tokens, as `pattern_texts` says: what has to be
/// expanded against the file system.
pub fn glob_patterns(tokens: &Vec<Token>) -> (res: Vec<String>)
    ensures
        strings_view(res@) == pattern_texts(tokens_view(tokens@)),
{
    let ghost s = tokens_view(tokens@);
    let mut res: Vec<String> = Vec::new();
    let mut i: usize = 0;
    proof {
        assert(s.take(0) =~= Seq::<SpecToken>::empty());
    }
    while i < tokens.len()
        invariant
            i <= tokens.len(),
            s == tokens_view(tokens@),
            strings_view(res@) == pattern_texts(s.take(i as int)),
        decreases tokens.len() - i,
    {
        proof {
            assert(s.take(i + 1).drop_last() =~= s.take(i as int));
            assert(s.take(i + 1).last() == tokens@[i as int]@);
        }
        match &tokens[i] {
            Token::NotOperator(TokenNotOperator::Command(c)) => {
                if has_regex_expression(c.as_str()) {
                    let ghost before = res@;
                    res.push(c.clone());
                    proof {
                        assert(strings_view(res@) =~= strings_view(before).push(c@));
                    }
                }
            },
            _ => {},
        }
        i = i + 1;
    }
    proof {
        assert(s.take(tokens.len() as int) =~= s);
    }
    res
}

/// Rebuilds the tokens once each pattern token has been expanded, as
/// `spec_expand_command` says; `expansions[k]` holds the paths that the
/// `k`-th pattern (see `glob_patterns`) matched.
pub fn expand_command(tokens: Vec<Token>, expansions: &Vec<Vec<String>>) -> (res: Vec<Token>)
    requires
        expansions@.len() == pattern_texts(tokens_view(tokens@)).len(),
    ensures
        tokens_view(res@) == spec_expand_command(
            tokens_view(tokens@),
            expansions@.map_values(|e: Vec<String>| strings_view(e@)),
        ),
{
    let ghost s = tokens_view(tokens@);
    let ghost es = expansions@.map_values(|e: Vec<String>| strings_view(e@));
    let mut res: Vec<Token> = Vec::new();
    let mut k: usize = 0;
    let mut i: usize = 0;
    proof {
        assert(s.take(0) =~= Seq::<SpecToken>::empty());
        assert(tokens_view(res@) =~= Seq::<SpecToken>::empty());
    }
    while i < tokens.len()
        invariant
            i <= tokens.len(),
            s == tokens_view(tokens@),
            es == expansions@.map_values(|e: Vec<String>| strings_view(e@)),
            expansions@.len() == pattern_texts(s).len(),
            k == pattern_texts(s.take(i as int)).len(),
            tokens_view(res@) == spec_expand_command(s.take(i as int), es),
        decreases tokens.len() - i,
    {
        proof {
            assert(s.take(i + 1).drop_last() =~= s.take(i as int));
            assert(s.take(i + 1).last() == tokens@[i as int]@);
            lemma_pattern_texts_prefix(s, i as int);
        }
        let is_pattern = match &tokens[i] {
            Token::NotOperator(TokenNotOperator::Command(c)) => has_regex_expression(c.as_str()),
            _ => false,
        };
        proof {
            assert(is_pattern == is_pattern_token(s[i as int]));
        }
        if is_pattern {
            assert(k < expansions.len());
            let paths = &expansions[k];
            let ghost kk = k;
            k = k + 1;
            let ghost before = tokens_view(res@);
            let mut j: usize = 0;
            while j < paths.len()
                invariant
                    j <= paths.len(),
                    tokens_view(res@) == before + path_commands(strings_view(paths@).take(j as int)),
                decreases paths.len() - j,
            {
                let ghost b2 = tokens_view(res@);
                res.push(Token::get_command(paths[j].clone()));
                proof {
                    assert(tokens_view(res@) =~= b2.push(SpecToken::Command(paths@[j as int]@)));
                    assert(strings_view(paths@).take(j + 1) =~= strings_view(paths@).take(j as int).push(paths@[j as int]@));
                    assert(path_commands(strings_view(paths@).take(j + 1)) =~= path_commands(strings_view(paths@).take(j as int)).push(SpecToken::Command(paths@[j as int]@)));
                }
                j = j + 1;
            }
            proof {
                assert(strings_view(paths@).take(paths@.len() as int) =~= strings_view(paths@));
                assert(es[kk as int] == strings_view(paths@));
            }
        } else {
            let ghost before = tokens_view(res@);
            res.push(tokens[i].duplicate());
            proof {
                assert(tokens_view(res@) =~= before.push(tokens@[i as int]@));
            }
        }
        i = i + 1;
    }
    proof {
        assert(s.take(tokens.len() as int) =~= s);
    }
    res
}

/// The patterns of a prefix are at most those of the whole, and one more
/// when the next token is a pattern.
proof fn lemma_pattern_texts_prefix(s: Seq<SpecToken>, i: int)
    requires
        0 <= i < s.len(),
    ensures
        pattern_texts(s.take(i + 1)).len() == pattern_texts(s.take(i)).len() + (if is_pattern_token(s[i]) { 1int } else { 0int }),
        pattern_texts(s.take(i + 1)).len() <= pattern_texts(s).len(),
    decreases s.len() - i,
{
    assert(s.take(i + 1).drop_last() =~= s.take(i));
    if i + 1 < s.len() {
        lemma_pattern_texts_prefix(s, i + 1);
    } else {
        assert(s.take(i + 1) =~= s);
    }
}

} // verus!
