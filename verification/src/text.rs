//! Character-level helpers shared by the tokenizer, the variable store and
//! the instruction builder: whitespace, trimming, splitting and building
//! strings from characters.
use vstd::prelude::*;

verus! {

/// Whether `c` has the Unicode `White_Space` property (the set that
/// `char::is_whitespace` and `str::trim` use).
pub open spec fn is_ws(c: char) -> bool {
    ||| c == ' '
    ||| ('\t' <= c && c <= '\r')
    ||| c == '\u{85}'
    ||| c == '\u{A0}'
    ||| c == '\u{1680}'
    ||| ('\u{2000}' <= c && c <= '\u{200A}')
    ||| c == '\u{2028}'
    ||| c == '\u{2029}'
    ||| c == '\u{202F}'
    ||| c == '\u{205F}'
    ||| c == '\u{3000}'
}

/// The whitespace test as a predicate value, for `split_pieces`.
pub open spec fn ws_pred() -> spec_fn(char) -> bool {
    |c: char| is_ws(c)
}

/// The test "is the character `sep`" as a predicate value, for `split_pieces`.
pub open spec fn char_pred(sep: char) -> spec_fn(char) -> bool {
    |c: char| c == sep
}

/// `s` without its leading whitespace.
pub open spec fn trim_start(s: Seq<char>) -> Seq<char>
    decreases s.len(),
{
    if s.len() > 0 && is_ws(s[0]) {
        trim_start(s.drop_first())
    } else {
        s
    }
}

/// `s` without its trailing whitespace.
pub open spec fn trim_end(s: Seq<char>) -> Seq<char>
    decreases s.len(),
{
    if s.len() > 0 && is_ws(s.last()) {
        trim_end(s.drop_last())
    } else {
        s
    }
}

/// `s` without leading and trailing whitespace, as `str::trim` gives it.
pub open spec fn trim(s: Seq<char>) -> Seq<char> {
    trim_end(trim_start(s))
}

/// The pieces of `s` between the characters on which `sep` holds, empty
/// pieces included, as `str::split` with a character predicate gives them.
/// There is always at least one piece.
pub open spec fn split_pieces(s: Seq<char>, sep: spec_fn(char) -> bool) -> Seq<Seq<char>>
    decreases s.len(),
{
    if s.len() == 0 {
        seq![Seq::empty()]
    } else {
        let r = split_pieces(s.drop_last(), sep);
        if sep(s.last()) {
            r.push(Seq::empty())
        } else {
            r.update(r.len() - 1, r.last().push(s.last()))
        }
    }
}

/// The non-empty members of `pieces`, in order.
pub open spec fn nonempty(pieces: Seq<Seq<char>>) -> Seq<Seq<char>>
    decreases pieces.len(),
{
    if pieces.len() == 0 {
        Seq::empty()
    } else if pieces.last().len() > 0 {
        nonempty(pieces.drop_last()).push(pieces.last())
    } else {
        nonempty(pieces.drop_last())
    }
}

/// The words of `s`, as `str::split_whitespace` gives them.
pub open spec fn words(s: Seq<char>) -> Seq<Seq<char>> {
    nonempty(split_pieces(s, ws_pred()))
}

/// The characters of each string of `v`.
pub open spec fn strings_view(v: Seq<String>) -> Seq<Seq<char>> {
    v.map_values(|s: String| s@)
}

/// The characters of each vector of `v`.
pub open spec fn char_vecs_view(v: Seq<Vec<char>>) -> Seq<Seq<char>> {
    v.map_values(|x: Vec<char>| x@)
}

pub proof fn lemma_split_pieces_nonempty(s: Seq<char>, sep: spec_fn(char) -> bool)
    ensures
        split_pieces(s, sep).len() >= 1,
    decreases s.len(),
{
    if s.len() > 0 {
        lemma_split_pieces_nonempty(s.drop_last(), sep);
    }
}

/// Splitting a prefix one character longer either opens a new piece or
/// extends the last one.
pub proof fn lemma_split_pieces_step(s: Seq<char>, i: int, sep: spec_fn(char) -> bool)
    requires
        0 <= i < s.len(),
    ensures
        split_pieces(s.take(i + 1), sep) == (if sep(s[i]) {
            split_pieces(s.take(i), sep).push(Seq::empty())
        } else {
            let r = split_pieces(s.take(i), sep);
            r.update(r.len() - 1, r.last().push(s[i]))
        }),
        split_pieces(s.take(i), sep).len() >= 1,
{
    lemma_split_pieces_nonempty(s.take(i), sep);
    assert(s.take(i + 1).drop_last() =~= s.take(i));
}

pub proof fn lemma_nonempty_push(pieces: Seq<Seq<char>>, x: Seq<char>)
    ensures
        nonempty(pieces.push(x)) == (if x.len() > 0 {
            nonempty(pieces).push(x)
        } else {
            nonempty(pieces)
        }),
{
    assert(pieces.push(x).drop_last() =~= pieces);
}

pub proof fn lemma_trim_start_skip(s: Seq<char>, i: int)
    requires
        0 <= i <= s.len(),
        forall|k: int| 0 <= k < i ==> is_ws(#[trigger] s[k]),
    ensures
        trim_start(s) == trim_start(s.skip(i)),
    decreases i,
{
    if i > 0 {
        assert(is_ws(s[0]));
        lemma_trim_start_skip(s.drop_first(), i - 1);
        assert(s.drop_first().skip(i - 1) =~= s.skip(i));
    } else {
        assert(s.skip(0) =~= s);
    }
}

pub proof fn lemma_trim_end_take(s: Seq<char>, j: int)
    requires
        0 <= j <= s.len(),
        forall|k: int| j <= k < s.len() ==> is_ws(#[trigger] s[k]),
    ensures
        trim_end(s) == trim_end(s.take(j)),
    decreases s.len() - j,
{
    if j < s.len() {
        assert(is_ws(s.last()));
        lemma_trim_end_take(s.drop_last(), j);
        assert(s.drop_last().take(j) =~= s.take(j));
    } else {
        assert(s.take(j) =~= s);
    }
}

/// Whether `c` has the Unicode `White_Space` property.
pub fn is_whitespace(c: char) -> (b: bool)
    ensures
        b == is_ws(c),
{
    c == ' ' || ('\t' <= c && c <= '\r') || c == '\u{85}' || c == '\u{A0}' || c == '\u{1680}'
        || ('\u{2000}' <= c && c <= '\u{200A}') || c == '\u{2028}' || c == '\u{2029}'
        || c == '\u{202F}' || c == '\u{205F}' || c == '\u{3000}'
}

/// Appends `c` to `s` through `String::push`; the contract claims that the
/// characters of `s` afterwards are the former ones followed by `c`.
#[verifier::external_body]
pub(crate) fn push_char(s: &mut String, c: char)
    ensures
        final(s)@ == old(s)@.push(c),
{
    s.push(c);
}

/// Collects the characters of a string slice into a vector.
pub fn chars_of(s: &str) -> (res: Vec<char>)
    ensures
        res@ == s@,
{
    let mut res: Vec<char> = Vec::new();
    for c in it: s.chars()
        invariant
            res@ == it.seq().take(it.index() as int),
            it.seq() == s@,
    {
        res.push(c);
    }
    proof {
        assert(res@ =~= s@);
    }
    res
}

/// Builds the string made of the characters `v[from..to]`.
pub fn string_from_range(v: &Vec<char>, from: usize, to: usize) -> (res: String)
    requires
        from <= to <= v.len(),
    ensures
        res@ == v@.subrange(from as int, to as int),
{
    let mut res = String::new();
    let mut i = from;
    while i < to
        invariant
            from <= i <= to <= v.len(),
            res@ == v@.subrange(from as int, i as int),
        decreases to - i,
    {
        push_char(&mut res, v[i]);
        i = i + 1;
        proof {
            assert(res@ =~= v@.subrange(from as int, i as int));
        }
    }
    res
}

/// Builds the string made of the characters of `v`.
pub fn string_from_chars(v: &Vec<char>) -> (res: String)
    ensures
        res@ == v@,
{
    let res = string_from_range(v, 0, v.len());
    proof {
        assert(v@.subrange(0, v@.len() as int) =~= v@);
    }
    res
}

/// Copies the characters `v[from..to]` into a new vector.
pub fn copy_range(v: &Vec<char>, from: usize, to: usize) -> (res: Vec<char>)
    requires
        from <= to <= v.len(),
    ensures
        res@ == v@.subrange(from as int, to as int),
{
    let mut res: Vec<char> = Vec::new();
    let mut i = from;
    while i < to
        invariant
            from <= i <= to <= v.len(),
            res@ == v@.subrange(from as int, i as int),
        decreases to - i,
    {
        res.push(v[i]);
        i = i + 1;
        proof {
            assert(res@ =~= v@.subrange(from as int, i as int));
        }
    }
    res
}

/// The bounds `(a, b)` such that `v[a..b]` is `v` trimmed.
pub fn trim_bounds(v: &Vec<char>) -> (r: (usize, usize))
    ensures
        r.0 <= r.1 <= v.len(),
        trim(v@) == v@.subrange(r.0 as int, r.1 as int),
{
    let len = v.len();
    let mut i: usize = 0;
    while i < len && is_whitespace(v[i])
        invariant
            i <= len == v.len(),
            forall|k: int| 0 <= k < i ==> is_ws(#[trigger] v@[k]),
        decreases len - i,
    {
        i = i + 1;
    }
    proof {
        lemma_trim_start_skip(v@, i as int);
        if i < len {
            assert(trim_start(v@.skip(i as int)) == v@.skip(i as int));
        } else {
            assert(v@.skip(i as int).len() == 0);
        }
    }
    let mut j: usize = len;
    while j > i && is_whitespace(v[j - 1])
        invariant
            i <= j <= len == v.len(),
            trim_start(v@) == v@.skip(i as int),
            forall|k: int| j <= k < len ==> is_ws(#[trigger] v@[k]),
        decreases j - i,
    {
        j = j - 1;
    }
    proof {
        let t = v@.skip(i as int);
        lemma_trim_end_take(t, j - i);
        assert forall|k: int| j - i <= k < t.len() implies is_ws(#[trigger] t[k]) by {
            assert(t[k] == v@[k + i]);
        }
        let u = t.take(j - i);
        assert(u =~= v@.subrange(i as int, j as int));
        if j > i {
            assert(u.last() == v@[j - 1]);
        }
    }
    (i, j)
}

/// The characters of `v` without leading and trailing whitespace.
pub fn trim_chars(v: &Vec<char>) -> (res: Vec<char>)
    ensures
        res@ == trim(v@),
{
    let (a, b) = trim_bounds(v);
    copy_range(v, a, b)
}

/// `s` without leading and trailing whitespace, as a new string.
pub fn trim_string(s: &str) -> (res: String)
    ensures
        res@ == trim(s@),
{
    let v = chars_of(s);
    let (a, b) = trim_bounds(&v);
    string_from_range(&v, a, b)
}

/// The pieces of `v` between the occurrences of `sep`, empty ones included.
pub fn split_chars(v: &Vec<char>, sep: char) -> (res: Vec<Vec<char>>)
    ensures
        char_vecs_view(res@) == split_pieces(v@, char_pred(sep)),
{
    let mut done: Vec<Vec<char>> = Vec::new();
    let mut cur: Vec<char> = Vec::new();
    let mut i: usize = 0;
    proof {
        assert(v@.take(0) =~= Seq::<char>::empty());
        assert(char_vecs_view(done@).push(cur@) =~= split_pieces(v@.take(0), char_pred(sep)));
    }
    while i < v.len()
        invariant
            i <= v.len(),
            char_vecs_view(done@).push(cur@) == split_pieces(v@.take(i as int), char_pred(sep)),
        decreases v.len() - i,
    {
        let c = v[i];
        proof {
            lemma_split_pieces_step(v@, i as int, char_pred(sep));
        }
        if c == sep {
            let ghost old_done = done@;
            done.push(cur);
            cur = Vec::new();
            proof {
                assert(char_vecs_view(done@) =~= char_vecs_view(old_done).push(
                    split_pieces(v@.take(i as int), char_pred(sep)).last(),
                ));
                assert(char_vecs_view(done@).push(cur@) =~= split_pieces(
                    v@.take(i + 1),
                    char_pred(sep),
                ));
            }
        } else {
            cur.push(c);
            proof {
                assert(char_vecs_view(done@).push(cur@) =~= split_pieces(
                    v@.take(i + 1),
                    char_pred(sep),
                ));
            }
        }
        i = i + 1;
    }
    let ghost before = done@;
    done.push(cur);
    proof {
        assert(v@.take(v@.len() as int) =~= v@);
        assert(char_vecs_view(done@) =~= char_vecs_view(before).push(
            split_pieces(v@, char_pred(sep)).last(),
        ));
    }
    done
}

/// The words of `s`, as `str::split_whitespace` gives them.
pub fn split_whitespace(s: &str) -> (res: Vec<String>)
    ensures
        strings_view(res@) == words(s@),
{
    let v = chars_of(s);
    let mut done: Vec<String> = Vec::new();
    let mut cur: Vec<char> = Vec::new();
    let mut i: usize = 0;
    proof {
        assert(v@.take(0) =~= Seq::<char>::empty());
        assert(strings_view(done@) =~= nonempty(
            split_pieces(v@.take(0), ws_pred()).drop_last(),
        ));
    }
    while i < v.len()
        invariant
            i <= v.len(),
            v@ == s@,
            split_pieces(v@.take(i as int), ws_pred()).len() >= 1,
            strings_view(done@) == nonempty(split_pieces(v@.take(i as int), ws_pred()).drop_last()),
            cur@ == split_pieces(v@.take(i as int), ws_pred()).last(),
        decreases v.len() - i,
    {
        let c = v[i];
        proof {
            lemma_split_pieces_step(v@, i as int, ws_pred());
            lemma_split_pieces_nonempty(v@.take(i + 1), ws_pred());
        }
        let ghost r = split_pieces(v@.take(i as int), ws_pred());
        if is_whitespace(c) {
            proof {
                assert(r.push(Seq::empty()).drop_last() =~= r.drop_last().push(r.last()));
                lemma_nonempty_push(r.drop_last(), r.last());
            }
            if cur.len() > 0 {
                let w = string_from_chars(&cur);
                let ghost old_done = done@;
                done.push(w);
                proof {
                    assert(strings_view(done@) =~= strings_view(old_done).push(w@));
                }
            }
            cur = Vec::new();
        } else {
            cur.push(c);
            proof {
                assert(r.update(r.len() - 1, r.last().push(c)).drop_last() =~= r.drop_last());
            }
        }
        i = i + 1;
    }
    proof {
        assert(v@.take(v@.len() as int) =~= v@);
        let r = split_pieces(v@, ws_pred());
        assert(r =~= r.drop_last().push(r.last()));
        lemma_nonempty_push(r.drop_last(), r.last());
    }
    if cur.len() > 0 {
        let w = string_from_chars(&cur);
        let ghost old_done = done@;
        done.push(w);
        proof {
            assert(strings_view(done@) =~= strings_view(old_done).push(w@));
        }
    }
    done
}

/// Whether `c` occurs in `v`.
pub fn contains_char(v: &Vec<char>, c: char) -> (b: bool)
    ensures
        b == v@.contains(c),
{
    let mut i: usize = 0;
    while i < v.len()
        invariant
            i <= v.len(),
            forall|k: int| 0 <= k < i ==> v@[k] != c,
        decreases v.len() - i,
    {
        if v[i] == c {
            return true;
        }
        i = i + 1;
    }
    false
}

} // verus!
