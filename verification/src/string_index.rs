//! The line being edited at the prompt: its text and the cursor in it.
//!
//! The cursor is a byte offset into the UTF-8 encoding of the text. Inserting
//! a character moves it one byte on, whatever the character's width; the
//! edits that need the cursor (or the byte before it) at the start of a
//! character are told apart by the `Option` results of the spec functions.
use vstd::prelude::*;
use vstd::string::StringSliceAdditionalSpecFns;
use vstd::utf8::{
    encode_utf8, decode_utf8, is_char_boundary, encode_utf8_valid_utf8, encode_utf8_decode_utf8,
    decode_utf8_encode_utf8, valid_utf8_split, decode_utf8_split,
};
use crate::text::{chars_of, string_from_range, push_char};

verus! {

/// The number of bytes of the UTF-8 encoding of `t`.
pub open spec fn byte_len(t: Seq<char>) -> nat {
    encode_utf8(t).len()
}

/// Whether byte `b` of the UTF-8 encoding of `t` starts a character (or is
/// its end).
pub open spec fn boundary(t: Seq<char>, b: int) -> bool {
    is_char_boundary(encode_utf8(t), b)
}

/// The characters whose encoding makes up the first `b` bytes of `t`'s.
pub open spec fn before(t: Seq<char>, b: int) -> Seq<char> {
    decode_utf8(encode_utf8(t).subrange(0, b))
}

/// The characters whose encoding makes up the bytes of `t`'s from `b` on.
pub open spec fn after(t: Seq<char>, b: int) -> Seq<char> {
    decode_utf8(encode_utf8(t).subrange(b, byte_len(t) as int))
}

/// The mathematical value of an edited line: its text and the cursor, a
/// byte offset.
#[verifier::ext_equal]
pub struct SpecLine {
    pub text: Seq<char>,
    pub index: int,
}

/// The text with `c` inserted at the cursor and the cursor one byte on, or
/// `None` when the cursor is not at the start of a character.
pub open spec fn spec_insert(l: SpecLine, c: char) -> Option<SpecLine> {
    if boundary(l.text, l.index) {
        Some(SpecLine { text: before(l.text, l.index) + seq![c] + after(l.text, l.index), index: l.index + 1 })
    } else {
        None
    }
}

/// The characters of `s` inserted one after the other, as `spec_insert`
/// says, or `None` when one of them cannot be.
pub open spec fn spec_insert_str(l: SpecLine, s: Seq<char>) -> Option<SpecLine>
    decreases s.len(),
{
    if s.len() == 0 {
        Some(l)
    } else {
        match spec_insert(l, s[0]) {
            Some(m) => spec_insert_str(m, s.drop_first()),
            None => None,
        }
    }
}

/// The text without the character that starts at the byte before the
/// cursor, and the cursor one byte back; unchanged at the start of the
/// line; `None` when that byte does not start a character.
pub open spec fn spec_remove(l: SpecLine) -> Option<SpecLine> {
    if l.index > 0 {
        if boundary(l.text, l.index - 1) && l.index - 1 < byte_len(l.text) {
            Some(
                SpecLine {
                    text: before(l.text, l.index - 1) + after(l.text, l.index - 1).drop_first(),
                    index: l.index - 1,
                },
            )
        } else {
            None
        }
    } else {
        Some(l)
    }
}

/// The cursor one byte right, unless at the end.
pub open spec fn spec_move_right(l: SpecLine) -> SpecLine {
    if l.index < byte_len(l.text) {
        SpecLine { index: l.index + 1, ..l }
    } else {
        l
    }
}

/// The cursor one byte left, unless at the start.
pub open spec fn spec_move_left(l: SpecLine) -> SpecLine {
    if l.index > 0 {
        SpecLine { index: l.index - 1, ..l }
    } else {
        l
    }
}

/// Where the word before the cursor starts (`start`), and whether it is in
/// command position (`true`) or an argument, going back byte by byte from
/// the cursor: a `;` or the start of the line ends the search in command
/// position; a word met after a space makes it an argument; `start` follows
/// the leftmost space met.
pub open spec fn predict_scan(s: Seq<u8>, idx: int, has_ws: bool, start: int) -> (int, bool)
    decreases idx,
{
    if idx <= 0 || idx > s.len() {
        (start, true)
    } else {
        let c = s[idx - 1];
        if c == 59u8 {
            (idx, true)
        } else if c == 32u8 {
            predict_scan(s, idx - 1, true, idx)
        } else if has_ws {
            (start, false)
        } else {
            predict_scan(s, idx - 1, has_ws, start)
        }
    }
}

/// Characters removed before the cursor, as `spec_remove` says, until the
/// cursor is back at `start`; `None` when one cannot be.
pub open spec fn spec_remove_to(l: SpecLine, start: int) -> Option<SpecLine>
    decreases l.index - start,
{
    if l.index > start && l.index > 0 {
        if boundary(l.text, l.index - 1) && l.index - 1 < byte_len(l.text) {
            spec_remove_to(
                SpecLine {
                    text: before(l.text, l.index - 1) + after(l.text, l.index - 1).drop_first(),
                    index: l.index - 1,
                },
                start,
            )
        } else {
            None
        }
    } else {
        Some(l)
    }
}

/// The word `[start, cursor)` replaced by the completion: characters
/// removed back to `start`, then the completion inserted.
pub open spec fn spec_complete(l: SpecLine, start: int, completion: Seq<char>) -> Option<SpecLine> {
    match spec_remove_to(l, start) {
        Some(m) => spec_insert_str(m, completion),
        None => None,
    }
}

/// The encoding of a concatenation is the concatenation of the encodings.
pub proof fn lemma_encode_concat(a: Seq<char>, b: Seq<char>)
    ensures
        encode_utf8(a + b) == encode_utf8(a) + encode_utf8(b),
    decreases a.len(),
{
    if a.len() == 0 {
        assert(a + b =~= b);
        assert(encode_utf8(a) =~= Seq::<u8>::empty());
        assert(encode_utf8(a) + encode_utf8(b) =~= encode_utf8(b));
    } else {
        lemma_encode_concat(a.drop_first(), b);
        assert((a + b).drop_first() =~= a.drop_first() + b);
        assert((a + b)[0] == a[0]);
    }
}

/// At a character boundary, the text is the characters before it followed
/// by those after it, and their encodings are the two parts of its own.
pub proof fn lemma_split(t: Seq<char>, b: int)
    requires
        boundary(t, b),
        0 <= b <= byte_len(t),
    ensures
        before(t, b) + after(t, b) == t,
        encode_utf8(before(t, b)) == encode_utf8(t).subrange(0, b),
        encode_utf8(after(t, b)) == encode_utf8(t).subrange(b, byte_len(t) as int),
{
    let bs = encode_utf8(t);
    encode_utf8_valid_utf8(t);
    encode_utf8_decode_utf8(t);
    decode_utf8_split(bs, b);
    valid_utf8_split(bs, b);
    decode_utf8_encode_utf8(bs.subrange(0, b));
    decode_utf8_encode_utf8(bs.subrange(b, bs.len() as int));
}

/// The line being edited.
#[derive(Debug)]
pub struct StringIndex {
    string: String,
    index: usize,
}

impl View for StringIndex {
    type V = SpecLine;

    closed spec fn view(&self) -> SpecLine {
        SpecLine { text: self.string@, index: self.index as int }
    }
}

/// The byte length of a string, as `byte_len` says.
fn byte_count(s: &String) -> (n: usize)
    ensures
        n == byte_len(s@),
{
    s.as_str().as_bytes().len()
}

/// The parts of `s` before and after byte `b`, which starts a character.
fn split_chars_at(s: &String, b: usize) -> (res: (String, String))
    requires
        boundary(s@, b as int),
        b <= byte_len(s@),
    ensures
        res.0@ == before(s@, b as int),
        res.1@ == after(s@, b as int),
{
    let (l, r) = s.as_str().split_at(b);
    proof {
        encode_utf8_decode_utf8(l@);
        encode_utf8_decode_utf8(r@);
    }
    (String::from_str(l), String::from_str(r))
}

impl StringIndex {
    #[verifier::type_invariant]
    spec fn inv(self) -> bool {
        self.index <= byte_len(self.string@) && byte_len(self.string@) <= usize::MAX
    }

    /// An empty line.
    pub fn new() -> (res: Self)
        ensures
            res@ == (SpecLine { text: Seq::empty(), index: 0 }),
    {
        let s = String::new();
        let n = byte_count(&s);
        Self { string: s, index: n }
    }

    /// A line holding `c`, with the cursor after its last byte.
    pub fn from(c: &str) -> (res: Self)
        ensures
            res@ == (SpecLine { text: c@, index: byte_len(c@) as int }),
    {
        let s = String::from_str(c);
        let n = byte_count(&s);
        Self { string: s, index: n }
    }

    /// A copy of the line.
    pub fn duplicate(&self) -> (res: Self)
        ensures
            res@ == self@,
    {
        proof {
            use_type_invariant(self);
        }
        Self { string: self.string.clone(), index: self.index }
    }

    /// Appends `c` to the text; the cursor stays.
    pub fn push_str(&mut self, c: &str)
        ensures
            final(self)@ == (SpecLine { text: old(self)@.text + c@, ..old(self)@ }),
    {
        proof {
            use_type_invariant(&*self);
            lemma_encode_concat(self.string@, c@);
        }
        let mut s = self.string.clone();
        s.append(c);
        let _n = byte_count(&s);
        self.string = s;
    }

    /// Whether the cursor is at the start of a character (or at the end),
    /// where `insert` can put one.
    pub fn can_insert(&self) -> (b: bool)
        ensures
            b == boundary(self@.text, self@.index),
    {
        self.string.as_str().is_char_boundary(self.index)
    }

    /// Inserts a character at the cursor, as `spec_insert` says.
    pub fn insert(&mut self, c: char)
        requires
            spec_insert(old(self)@, c) is Some,
        ensures
            final(self)@ == spec_insert(old(self)@, c)->0,
    {
        proof {
            use_type_invariant(&*self);
            lemma_split(self.string@, self.index as int);
        }
        let (l, r) = split_chars_at(&self.string, self.index);
        let mut s = l;
        push_char(&mut s, c);
        s.append(r.as_str());
        proof {
            assert(s@ =~= before(old(self)@.text, old(self)@.index) + seq![c] + after(old(self)@.text, old(self)@.index));
            assert(encode_utf8(before(old(self)@.text, old(self)@.index)).len() == old(self)@.index);
            lemma_encode_concat(before(old(self)@.text, old(self)@.index) + seq![c], after(old(self)@.text, old(self)@.index));
            lemma_encode_concat(before(old(self)@.text, old(self)@.index), seq![c]);
            assert(encode_utf8(seq![c]).len() >= 1) by {
                assert(seq![c].drop_first() =~= Seq::<char>::empty());
            }
        }
        let n = byte_count(&s);
        let i = self.index + 1;
        *self = StringIndex { string: s, index: i };
    }

    /// Whether `insert_str` can insert `c`, as `spec_insert_str` says.
    pub fn can_insert_str(&self, c: &str) -> (b: bool)
        ensures
            b == spec_insert_str(self@, c@) is Some,
    {
        let v = chars_of(c);
        let mut probe = self.duplicate();
        let mut i: usize = 0;
        proof {
            assert(v@.skip(0) =~= v@);
        }
        while i < v.len()
            invariant
                i <= v@.len(),
                v@ == c@,
                spec_insert_str(probe@, v@.skip(i as int)) == spec_insert_str(self@, c@),
            decreases v.len() - i,
        {
            proof {
                assert(v@.skip(i as int)[0] == v@[i as int]);
                assert(v@.skip(i as int).drop_first() =~= v@.skip(i + 1));
            }
            if !probe.can_insert() {
                return false;
            }
            probe.insert(v[i]);
            i = i + 1;
        }
        proof {
            assert(v@.skip(i as int) =~= Seq::<char>::empty());
        }
        true
    }

    /// Inserts text at the cursor, character after character, as
    /// `spec_insert_str` says.
    pub fn insert_str(&mut self, c: &str)
        requires
            spec_insert_str(old(self)@, c@) is Some,
        ensures
            final(self)@ == spec_insert_str(old(self)@, c@)->0,
    {
        let v = chars_of(c);
        let mut i: usize = 0;
        proof {
            assert(v@.skip(0) =~= v@);
        }
        while i < v.len()
            invariant
                i <= v@.len(),
                v@ == c@,
                spec_insert_str(self@, v@.skip(i as int)) == spec_insert_str(old(self)@, c@),
                spec_insert_str(old(self)@, c@) is Some,
            decreases v.len() - i,
        {
            proof {
                assert(v@.skip(i as int)[0] == v@[i as int]);
                assert(v@.skip(i as int).drop_first() =~= v@.skip(i + 1));
            }
            self.insert(v[i]);
            i = i + 1;
        }
        proof {
            assert(v@.skip(i as int) =~= Seq::<char>::empty());
        }
    }

    /// The cursor, a byte offset.
    pub fn get_index(&self) -> (res: usize)
        ensures
            res == self@.index,
    {
        self.index
    }

    /// Whether `remove` can remove the character before the cursor, as
    /// `spec_remove` says.
    pub fn can_remove(&self) -> (b: bool)
        ensures
            b == spec_remove(self@) is Some,
    {
        proof {
            use_type_invariant(self);
        }
        self.index == 0 || self.string.as_str().is_char_boundary(self.index - 1)
    }

    /// Removes the character that starts at the byte before the cursor, as
    /// `spec_remove` says.
    pub fn remove(&mut self)
        requires
            spec_remove(old(self)@) is Some,
        ensures
            final(self)@ == spec_remove(old(self)@)->0,
    {
        proof {
            use_type_invariant(&*self);
        }
        if self.index > 0 {
            let b = self.index - 1;
            proof {
                lemma_split(self.string@, b as int);
            }
            let (l, r) = split_chars_at(&self.string, b);
            let rv = chars_of(r.as_str());
            proof {
                if rv@.len() == 0 {
                    assert(encode_utf8(rv@) =~= Seq::<u8>::empty());
                }
                lemma_encode_concat(l@, rv@.drop_first());
                assert(rv@ =~= seq![rv@[0]] + rv@.drop_first());
                lemma_encode_concat(seq![rv@[0]], rv@.drop_first());
            }
            let rest = string_from_range(&rv, 1, rv.len());
            let mut s = l;
            s.append(rest.as_str());
            proof {
                assert(rest@ =~= rv@.drop_first());
            }
            let n = byte_count(&s);
            *self = StringIndex { string: s, index: b };
        }
    }

    /// Whether the text is empty.
    pub fn is_empty(&self) -> (b: bool)
        ensures
            b == (self@.text.len() == 0),
    {
        self.string.as_str().is_empty()
    }

    /// Moves the cursor one byte right, as `spec_move_right` says.
    pub fn move_right(&mut self)
        ensures
            final(self)@ == spec_move_right(old(self)@),
    {
        proof {
            use_type_invariant(&*self);
        }
        let n = byte_count(&self.string);
        if self.index < n {
            self.index = self.index + 1;
        }
    }

    /// Moves the cursor one byte left, as `spec_move_left` says.
    pub fn move_left(&mut self)
        ensures
            final(self)@ == spec_move_left(old(self)@),
    {
        proof {
            use_type_invariant(&*self);
        }
        if self.index > 0 {
            self.index = self.index - 1;
        }
    }

    /// Replaces the text by `c`, with the cursor after its last byte.
    pub fn set(&mut self, c: String)
        ensures
            final(self)@ == (SpecLine { text: c@, index: byte_len(c@) as int }),
    {
        let n = byte_count(&c);
        *self = StringIndex { string: c, index: n };
    }

    /// The text.
    pub fn get(&self) -> (res: &str)
        ensures
            res@ == self@.text,
    {
        self.string.as_str()
    }

    /// The word before the cursor that completion works on: where it starts
    /// and whether it is in command position, as `predict_scan` says over
    /// the bytes of the text, and the characters between that start and the
    /// cursor. `None` when those two offsets do not both start characters
    /// (the start is checked in the text, the cursor in the rest of it).
    pub fn predict_target(&self) -> (res: Option<(usize, bool, String)>)
        ensures
            ({
                let bs = encode_utf8(self@.text);
                let (start, is_command) = predict_scan(bs, self@.index, false, 0);
                let ok = boundary(self@.text, start) && is_char_boundary(
                    bs.subrange(start, bs.len() as int),
                    self@.index - start,
                );
                match res {
                    Some((s, b, w)) => ok && s == start && b == is_command && start <= self@.index
                        && w@ == decode_utf8(bs.subrange(start, self@.index)),
                    None => !ok,
                }
            }),
    {
        proof {
            use_type_invariant(self);
        }
        let bytes = self.string.as_str().as_bytes();
        let ghost bs = encode_utf8(self@.text);
        let mut index = self.index;
        let mut has_meet_white_space = false;
        let mut start_index: usize = 0;
        let mut is_command = true;
        let mut done = false;
        while index > 0 && !done
            invariant
                bytes@ == bs,
                bs == encode_utf8(self@.text),
                index <= self@.index <= bs.len(),
                start_index <= self@.index,
                !done ==> (has_meet_white_space ==> index <= start_index),
                !done ==> (!has_meet_white_space ==> start_index == 0),
                !done ==> is_command,
                !done ==> predict_scan(bs, self@.index, false, 0) == predict_scan(
                    bs,
                    index as int,
                    has_meet_white_space,
                    start_index as int,
                ),
                done ==> predict_scan(bs, self@.index, false, 0) == (start_index as int, is_command),
            decreases index + (if done { 0int } else { 1int }),
        {
            let c = bytes[index - 1];
            if c == 59u8 {
                start_index = index;
                done = true;
            } else if c == 32u8 {
                has_meet_white_space = true;
                start_index = index;
                index = index - 1;
            } else {
                if has_meet_white_space {
                    is_command = false;
                    done = true;
                } else {
                    index = index - 1;
                }
            }
        }
        let s = self.string.as_str();
        if !s.is_char_boundary(start_index) {
            return None;
        }
        let (_, rest) = s.split_at(start_index);
        if !rest.is_char_boundary(self.index - start_index) {
            return None;
        }
        let (word, _) = rest.split_at(self.index - start_index);
        proof {
            encode_utf8_decode_utf8(word@);
            assert(rest.spec_bytes().subrange(0, self.index - start_index) =~= bs.subrange(
                start_index as int,
                self.index as int,
            ));
        }
        Some((start_index, is_command, String::from_str(word)))
    }

    /// Whether `predict` can complete with `candidate`, as `spec_complete`
    /// says.
    pub fn can_complete(&self, start: usize, candidate: &str) -> (b: bool)
        requires
            start <= self@.index,
        ensures
            b == spec_complete(self@, start as int, candidate@) is Some,
    {
        let mut probe = self.duplicate();
        while probe.index > start
            invariant
                start <= probe@.index,
                spec_complete(probe@, start as int, candidate@) == spec_complete(self@, start as int, candidate@),
            decreases probe@.index,
        {
            if !probe.can_remove() {
                return false;
            }
            probe.remove();
        }
        probe.can_insert_str(candidate)
    }

    /// Completes the word `[start, cursor)` when the lookup found exactly one
    /// candidate, as `spec_complete` says: characters are removed back to
    /// `start` and the candidate is inserted; with any other number of
    /// candidates the line is unchanged.
    pub fn predict(&mut self, start: usize, candidates: &Vec<String>)
        requires
            start <= old(self)@.index,
            candidates@.len() == 1 ==> spec_complete(old(self)@, start as int, candidates@[0]@) is Some,
        ensures
            candidates@.len() == 1 ==> final(self)@ == spec_complete(
                old(self)@,
                start as int,
                candidates@[0]@,
            )->0,
            candidates@.len() != 1 ==> final(self)@ == old(self)@,
    {
        if candidates.len() == 1 {
            while self.index > start
                invariant
                    start <= self@.index,
                    spec_complete(self@, start as int, candidates@[0]@) == spec_complete(
                        old(self)@,
                        start as int,
                        candidates@[0]@,
                    ),
                    spec_complete(old(self)@, start as int, candidates@[0]@) is Some,
                decreases self@.index,
            {
                self.remove();
            }
            self.insert_str(candidates[0].as_str());
        }
    }
}

} // verus!
