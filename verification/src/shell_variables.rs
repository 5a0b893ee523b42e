//! The variables of the shell: its own (`PWD`, `HISTORY`, `?`, ...), the
//! internal ones (from the start-up file and `export`) and the external
//! ones; lookup, expansion in tokens, and `export`.
use vstd::prelude::*;
use vstd::hash_map::StringHashMap;
use crate::number::{int_text, nat_text, i64_text, parse_int_text, lemma_nat_text, digits_value};
use crate::shell_error::{ShellError, SpecShellError};
use crate::token::{Token, TokenNotOperator, SpecToken, tokens_view};
use crate::instruction::{Input, Instruction, SpecInput, join_spaces, copy_strings};
use crate::text::{
    char_pred, chars_of, nonempty, push_char, split_chars, split_pieces, string_from_chars,
    strings_view, trim, trim_string, char_vecs_view, trim_chars,
};

verus! {

/// The characters of the value of each variable.
pub open spec fn text_map(m: Map<Seq<char>, String>) -> Map<Seq<char>, Seq<char>> {
    Map::new(|k: Seq<char>| m.contains_key(k), |k: Seq<char>| m[k]@)
}

pub proof fn lemma_text_map_insert(m: Map<Seq<char>, String>, k: Seq<char>, v: String)
    ensures
        text_map(m.insert(k, v)) == text_map(m).insert(k, v@),
{
    assert(text_map(m.insert(k, v)) =~= text_map(m).insert(k, v@));
}

pub proof fn lemma_text_map_remove(m: Map<Seq<char>, String>, k: Seq<char>)
    ensures
        text_map(m.remove(k)) == text_map(m).remove(k),
{
    assert(text_map(m.remove(k)) =~= text_map(m).remove(k));
}

/// The mathematical value of the variable store: the three tables, each
/// from names to values.
pub struct SpecVariables {
    pub extern_vars: Map<Seq<char>, Seq<char>>,
    pub intern_vars: Map<Seq<char>, Seq<char>>,
    pub shell_vars: Map<Seq<char>, Seq<char>>,
}

/// The value of a variable: the shell's own table first, then the internal
/// one, then the external one.
pub open spec fn lookup(v: SpecVariables, name: Seq<char>) -> Option<Seq<char>> {
    if v.shell_vars.contains_key(name) {
        Some(v.shell_vars[name])
    } else if v.intern_vars.contains_key(name) {
        Some(v.intern_vars[name])
    } else if v.extern_vars.contains_key(name) {
        Some(v.extern_vars[name])
    } else {
        None
    }
}

/// The shell's own table always holds `PWD`, `OLDPWD`, `USER`, `HISTORY`
/// and `?`; `?` holds the decimal text of an `i32`, and `HISTORY` is empty
/// or ends with a newline.
pub open spec fn well_formed_shell(s: Map<Seq<char>, Seq<char>>) -> bool {
    &&& s.contains_key("PWD"@)
    &&& s.contains_key("OLDPWD"@)
    &&& s.contains_key("USER"@)
    &&& s.contains_key("HISTORY"@)
    &&& s.contains_key("?"@)
    &&& exists|n: i32| s["?"@] == int_text(n as int)
    &&& history_text(s["HISTORY"@])
}

/// Whether a text is made of whole lines: empty, or ending with a newline.
pub open spec fn history_text(h: Seq<char>) -> bool {
    h.len() == 0 || h.last() == '\n'
}

/// The names that the shell's own table uses are distinct.
pub proof fn lemma_names_distinct()
    ensures
        "PWD"@ != "OLDPWD"@,
        "PWD"@ != "USER"@,
        "PWD"@ != "HISTORY"@,
        "PWD"@ != "?"@,
        "PWD"@ != "SHELL"@,
        "PWD"@ != "HOME"@,
        "OLDPWD"@ != "USER"@,
        "OLDPWD"@ != "HISTORY"@,
        "OLDPWD"@ != "?"@,
        "OLDPWD"@ != "SHELL"@,
        "OLDPWD"@ != "HOME"@,
        "USER"@ != "HISTORY"@,
        "USER"@ != "?"@,
        "USER"@ != "SHELL"@,
        "USER"@ != "HOME"@,
        "HISTORY"@ != "?"@,
        "HISTORY"@ != "SHELL"@,
        "HISTORY"@ != "HOME"@,
        "?"@ != "SHELL"@,
        "?"@ != "HOME"@,
        "SHELL"@ != "HOME"@,
{
    reveal_strlit("PWD");
    reveal_strlit("OLDPWD");
    reveal_strlit("USER");
    reveal_strlit("HISTORY");
    reveal_strlit("?");
    reveal_strlit("SHELL");
    reveal_strlit("HOME");
    assert("PWD"@[0] != "OLDPWD"@[0]);
    assert("PWD"@[0] != "USER"@[0]);
    assert("PWD"@[0] != "HISTORY"@[0]);
    assert("PWD"@[0] != "HOME"@[0]);
    assert("OLDPWD"@[0] != "USER"@[0]);
    assert("OLDPWD"@[0] != "HISTORY"@[0]);
    assert("OLDPWD"@[0] != "HOME"@[0]);
    assert("USER"@[0] != "HISTORY"@[0]);
    assert("USER"@[0] != "HOME"@[0]);
    assert("HISTORY"@[0] != "SHELL"@[0]);
    assert("HISTORY"@[1] != "HOME"@[1]);
    assert("SHELL"@[0] != "HOME"@[0]);
    assert("PWD"@[0] != "SHELL"@[0]);
    assert("OLDPWD"@[0] != "SHELL"@[0]);
    assert("USER"@[0] != "SHELL"@[0]);
}

/// The shell's own table as the start-up sets it: `PWD` and `OLDPWD` to the
/// working directory, an empty `HISTORY`, `SHELL` to `rsh`, `USER` to the
/// user's name (or `Unknown`), `?` to `0`, and `HOME` when it is known.
pub open spec fn spec_init_shell(
    pwd: Seq<char>,
    user: Option<Seq<char>>,
    home: Option<Seq<char>>,
) -> Map<Seq<char>, Seq<char>> {
    let m = Map::<Seq<char>, Seq<char>>::empty().insert("PWD"@, pwd).insert("OLDPWD"@, pwd).insert(
        "HISTORY"@,
        Seq::empty(),
    ).insert("SHELL"@, "rsh"@).insert(
        "USER"@,
        match user {
            Some(u) => u,
            None => "Unknown"@,
        },
    ).insert("?"@, "0"@);
    match home {
        Some(h) => m.insert("HOME"@, h),
        None => m,
    }
}

/// The lines of a text, as `str::lines` gives them: the pieces between
/// newlines, each but the last without one carriage return before its
/// newline, and without the last piece when it is empty.
pub open spec fn lines(s: Seq<char>) -> Seq<Seq<char>> {
    let p = split_pieces(s, char_pred('\n'));
    let body = p.drop_last().map_values(|l: Seq<char>| strip_cr(l));
    if p.last().len() == 0 {
        body
    } else {
        body.push(p.last())
    }
}

/// A line without the carriage return that ends it, if any.
pub open spec fn strip_cr(l: Seq<char>) -> Seq<char> {
    if l.len() > 0 && l.last() == '\r' {
        l.drop_last()
    } else {
        l
    }
}

/// The history as `get_history` gives it: the non-empty lines, most recent
/// first.
pub open spec fn spec_history(h: Seq<char>) -> Seq<Seq<char>> {
    nonempty(lines(h)).reverse()
}

/// What reading a start-up file does to a table: each line that holds a `=`
/// defines the variable named by the text before its first `=`, trimmed, as
/// the text after it, trimmed; later lines win.
pub open spec fn rshrc_defs(pieces: Seq<Seq<char>>, m: Map<Seq<char>, Seq<char>>) -> Map<
    Seq<char>,
    Seq<char>,
>
    decreases pieces.len(),
{
    if pieces.len() == 0 {
        m
    } else {
        let prev = rshrc_defs(pieces.drop_last(), m);
        let line = pieces.last();
        let e = crate::pattern::find_from(line, '=', 0);
        if e < line.len() {
            prev.insert(trim(line.subrange(0, e)), trim(line.subrange(e + 1, line.len() as int)))
        } else {
            prev
        }
    }
}

/// The variable store of a shell.
pub struct ShellVariables {
    extern_variables: StringHashMap<String>,
    intern_variables: StringHashMap<String>,
    shell_variables: StringHashMap<String>,
}

impl View for ShellVariables {
    type V = SpecVariables;

    closed spec fn view(&self) -> SpecVariables {
        SpecVariables {
            extern_vars: text_map(self.extern_variables@),
            intern_vars: text_map(self.intern_variables@),
            shell_vars: text_map(self.shell_variables@),
        }
    }
}

/// A string from a literal.
fn lit(s: &str) -> (res: String)
    ensures
        res@ == s@,
{
    String::from_str(s)
}

impl ShellVariables {
    /// The store keeps the shell's own table well formed.
    pub closed spec fn wf(&self) -> bool {
        well_formed_shell(text_map(self.shell_variables@))
    }

    /// A store whose internal variables are the definitions of a start-up
    /// file (as `parse_rshrc` reads them), with no external variables, and
    /// whose own table is set from the working directory, the user's name and
    /// the home directory, as `spec_init_shell` says.
    pub fn new(rshrc: String, pwd: String, user: Option<String>, home: Option<String>) -> (res: Self)
        ensures
            res.wf(),
            res@.intern_vars == rshrc_defs(
                split_pieces(rshrc@, char_pred('\n')),
                Map::<Seq<char>, Seq<char>>::empty(),
            ),
            res@.extern_vars == Map::<Seq<char>, Seq<char>>::empty(),
            res@.shell_vars == spec_init_shell(
                pwd@,
                match user {
                    Some(u) => Some(u@),
                    None => None,
                },
                match home {
                    Some(h) => Some(h@),
                    None => None,
                },
            ),
    {
        let mut intern_variables = StringHashMap::<String>::new();
        proof {
            assert(text_map(intern_variables@) =~= Map::<Seq<char>, Seq<char>>::empty());
        }
        Self::parse_rshrc(rshrc, &mut intern_variables);
        let shell_variables = Self::init_shell_variables(pwd, user, home);
        let extern_variables = StringHashMap::<String>::new();
        proof {
            assert(text_map(extern_variables@) =~= Map::<Seq<char>, Seq<char>>::empty());
        }
        Self { intern_variables, extern_variables, shell_variables }
    }

    /// The shell's own table at start-up, as `spec_init_shell` says.
    pub fn init_shell_variables(pwd: String, user: Option<String>, home: Option<String>) -> (m:
        StringHashMap<String>)
        ensures
            text_map(m@) == spec_init_shell(
                pwd@,
                match user {
                    Some(u) => Some(u@),
                    None => None,
                },
                match home {
                    Some(h) => Some(h@),
                    None => None,
                },
            ),
            well_formed_shell(text_map(m@)),
    {
        let mut shell_variables = StringHashMap::<String>::new();
        proof {
            assert(text_map(shell_variables@) =~= Map::<Seq<char>, Seq<char>>::empty());
        }
        Self::init_PWD(&mut shell_variables, pwd);
        Self::init_HISTORY(&mut shell_variables);
        Self::init_SHELL(&mut shell_variables);
        Self::init_USER(&mut shell_variables, user);
        Self::init_last_status(&mut shell_variables);
        Self::init_STATUS(&mut shell_variables);
        Self::init_HOME(&mut shell_variables, home);
        proof {
            lemma_names_distinct();
            reveal_strlit("0");
            lemma_nat_text(0);
            assert(nat_text(0) =~= "0"@);
            assert(int_text(0i32 as int) == "0"@);
            let s = text_map(shell_variables@);
            assert(s["?"@] == int_text(0i32 as int));
        }
        shell_variables
    }

    /// Sets `?` to `0`.
    pub fn init_STATUS(shell_variables: &mut StringHashMap<String>)
        ensures
            text_map(final(shell_variables)@) == text_map(old(shell_variables)@).insert("?"@, "0"@),
    {
        let k = lit("?");
        let v = lit("0");
        shell_variables.insert(k, v);
        proof {
            lemma_text_map_insert(old(shell_variables)@, k@, v);
        }
    }

    /// Sets `HOME` to the home directory, when it is known.
    pub fn init_HOME(shell_variables: &mut StringHashMap<String>, home: Option<String>)
        ensures
            text_map(final(shell_variables)@) == match home {
                Some(h) => text_map(old(shell_variables)@).insert("HOME"@, h@),
                None => text_map(old(shell_variables)@),
            },
    {
        if let Some(h) = home {
            let k = lit("HOME");
            shell_variables.insert(k, h);
            proof {
                lemma_text_map_insert(old(shell_variables)@, k@, h);
            }
        }
    }

    /// Sets `PWD` and `OLDPWD` to the working directory.
    pub fn init_PWD(shell_variables: &mut StringHashMap<String>, pwd: String)
        ensures
            text_map(final(shell_variables)@) == text_map(old(shell_variables)@).insert(
                "PWD"@,
                pwd@,
            ).insert("OLDPWD"@, pwd@),
    {
        let k1 = lit("PWD");
        let k2 = lit("OLDPWD");
        let ghost m0 = shell_variables@;
        let p2 = pwd.clone();
        shell_variables.insert(k1, p2);
        let ghost m1 = shell_variables@;
        shell_variables.insert(k2, pwd);
        proof {
            lemma_text_map_insert(m0, k1@, p2);
            lemma_text_map_insert(m1, k2@, pwd);
        }
    }

    /// Sets `HISTORY` to the empty text.
    pub fn init_HISTORY(shell_variables: &mut StringHashMap<String>)
        ensures
            text_map(final(shell_variables)@) == text_map(old(shell_variables)@).insert(
                "HISTORY"@,
                Seq::empty(),
            ),
    {
        let k = lit("HISTORY");
        let v = String::new();
        shell_variables.insert(k, v);
        proof {
            lemma_text_map_insert(old(shell_variables)@, k@, v);
        }
    }

    /// Sets `USER` to the user's name, or to `Unknown` when it is not known.
    pub fn init_USER(intern_variables: &mut StringHashMap<String>, user: Option<String>)
        ensures
            text_map(final(intern_variables)@) == text_map(old(intern_variables)@).insert(
                "USER"@,
                match user {
                    Some(u) => u@,
                    None => "Unknown"@,
                },
            ),
    {
        let u = match user {
            Some(u) => u,
            None => lit("Unknown"),
        };
        let k = lit("USER");
        intern_variables.insert(k, u);
        proof {
            lemma_text_map_insert(old(intern_variables)@, k@, u);
        }
    }

    /// Sets `SHELL` to `rsh`.
    pub fn init_SHELL(shell_variables: &mut StringHashMap<String>)
        ensures
            text_map(final(shell_variables)@) == text_map(old(shell_variables)@).insert(
                "SHELL"@,
                "rsh"@,
            ),
    {
        let k = lit("SHELL");
        let v = lit("rsh");
        shell_variables.insert(k, v);
        proof {
            lemma_text_map_insert(old(shell_variables)@, k@, v);
        }
    }

    /// Sets `?` to `0`.
    pub fn init_last_status(shell_variables: &mut StringHashMap<String>)
        ensures
            text_map(final(shell_variables)@) == text_map(old(shell_variables)@).insert("?"@, "0"@),
    {
        let k = lit("?");
        let v = lit("0");
        shell_variables.insert(k, v);
        proof {
            lemma_text_map_insert(old(shell_variables)@, k@, v);
        }
    }

    /// Sets `PATH` to `/bin:`.
    pub fn init_PATH(intern_variables: &mut StringHashMap<String>)
        ensures
            text_map(final(intern_variables)@) == text_map(old(intern_variables)@).insert(
                "PATH"@,
                "/bin:"@,
            ),
    {
        let k = lit("PATH");
        let v = lit("/bin:");
        intern_variables.insert(k, v);
        proof {
            lemma_text_map_insert(old(intern_variables)@, k@, v);
        }
    }

    /// Reads the definitions of a start-up file into a table, as
    /// `rshrc_defs` says.
    pub fn parse_rshrc(rshrc: String, intern_variables: &mut StringHashMap<String>)
        ensures
            text_map(final(intern_variables)@) == rshrc_defs(
                split_pieces(rshrc@, char_pred('\n')),
                text_map(old(intern_variables)@),
            ),
    {
        let v = chars_of(rshrc.as_str());
        let pieces = split_chars(&v, '\n');
        let ghost ps = split_pieces(rshrc@, char_pred('\n'));
        let mut i: usize = 0;
        while i < pieces.len()
            invariant
                i <= pieces.len(),
                char_vecs_view(pieces@) == ps,
                text_map(intern_variables@) == rshrc_defs(
                    ps.take(i as int),
                    text_map(old(intern_variables)@),
                ),
            decreases pieces.len() - i,
        {
            let line = &pieces[i];
            proof {
                assert(ps.take(i + 1).drop_last() =~= ps.take(i as int));
                assert(ps.take(i + 1).last() == line@);
                crate::pattern::lemma_find_from(line@, '=', 0);
            }
            let mut e: usize = 0;
            while e < line.len() && line[e] != '='
                invariant
                    e <= line.len(),
                    crate::pattern::find_from(line@, '=', 0) == crate::pattern::find_from(
                        line@,
                        '=',
                        e as int,
                    ),
                decreases line.len() - e,
            {
                e = e + 1;
            }
            if e < line.len() {
                let key_chars = crate::text::copy_range(line, 0, e);
                let value_chars = crate::text::copy_range(line, e + 1, line.len());
                let key = string_from_chars(&trim_chars(&key_chars));
                let value = string_from_chars(&trim_chars(&value_chars));
                let ghost before = intern_variables@;
                intern_variables.insert(key, value);
                proof {
                    lemma_text_map_insert(before, key@, value);
                }
            }
            i = i + 1;
        }
        proof {
            assert(ps.take(i as int) =~= ps);
        }
    }

    /// The working directory.
    pub fn get_pwd(&self) -> (res: &str)
        requires
            self.wf(),
        ensures
            res@ == self@.shell_vars["PWD"@],
    {
        match self.shell_variables.get("PWD") {
            Some(p) => p.as_str(),
            None => unreached(),
        }
    }

    /// The previous working directory.
    pub fn get_old_pwd(&self) -> (res: &str)
        requires
            self.wf(),
        ensures
            res@ == self@.shell_vars["OLDPWD"@],
    {
        match self.shell_variables.get("OLDPWD") {
            Some(p) => p.as_str(),
            None => unreached(),
        }
    }

    /// The user's name.
    pub fn get_user(&self) -> (res: &str)
        requires
            self.wf(),
        ensures
            res@ == self@.shell_vars["USER"@],
    {
        match self.shell_variables.get("USER") {
            Some(p) => p.as_str(),
            None => unreached(),
        }
    }

    /// Moves `PWD` to `OLDPWD` and sets `PWD` to the new working directory.
    pub fn update_pwd(&mut self, new_path: String)
        requires
            old(self).wf(),
        ensures
            final(self).wf(),
            final(self)@.shell_vars == old(self)@.shell_vars.insert(
                "OLDPWD"@,
                old(self)@.shell_vars["PWD"@],
            ).insert("PWD"@, new_path@),
            final(self)@.intern_vars == old(self)@.intern_vars,
            final(self)@.extern_vars == old(self)@.extern_vars,
    {
        proof {
            lemma_names_distinct();
        }
        let pwd = match self.shell_variables.get("PWD") {
            Some(p) => p.clone(),
            None => unreached(),
        };
        let k1 = lit("OLDPWD");
        let k2 = lit("PWD");
        let ghost m0 = self.shell_variables@;
        let ghost n = choose|n: i32| text_map(m0)["?"@] == int_text(n as int);
        self.shell_variables.insert(k1, pwd);
        proof {
            lemma_text_map_insert(m0, k1@, pwd);
            assert(text_map(self.shell_variables@)["?"@] == int_text(n as int));
        }
        let ghost m1 = self.shell_variables@;
        self.shell_variables.insert(k2, new_path);
        proof {
            lemma_text_map_insert(m1, k2@, new_path);
            assert(text_map(self.shell_variables@)["?"@] == int_text(n as int));
        }
    }

    /// Appends a command line, trimmed and followed by a newline, to
    /// `HISTORY`; an empty line is not recorded.
    pub fn update_history(&mut self, cmd: &str)
        requires
            old(self).wf(),
        ensures
            final(self).wf(),
            cmd@.len() == 0 ==> final(self)@ == old(self)@,
            cmd@.len() > 0 ==> final(self)@.shell_vars == old(self)@.shell_vars.insert(
                "HISTORY"@,
                old(self)@.shell_vars["HISTORY"@] + trim(cmd@) + seq!['\n'],
            ),
            final(self)@.intern_vars == old(self)@.intern_vars,
            final(self)@.extern_vars == old(self)@.extern_vars,
    {
        if cmd.is_empty() {
            return ;
        }
        proof {
            lemma_names_distinct();
        }
        let mut history = match self.shell_variables.get("HISTORY") {
            Some(h) => h.clone(),
            None => unreached(),
        };
        proof {
            assert(history@ == old(self)@.shell_vars["HISTORY"@]);
        }
        let t = trim_string(cmd);
        history.append(t.as_str());
        push_char(&mut history, '\n');
        proof {
            assert(history@ =~= old(self)@.shell_vars["HISTORY"@] + trim(cmd@) + seq!['\n']);
        }
        let k = lit("HISTORY");
        let ghost m0 = self.shell_variables@;
        let ghost n = choose|n: i32| text_map(m0)["?"@] == int_text(n as int);
        self.shell_variables.insert(k, history);
        proof {
            lemma_text_map_insert(m0, k@, history);
            assert(text_map(self.shell_variables@)["?"@] == int_text(n as int));
        }
    }

    /// The recorded command lines, most recent first, as `spec_history`
    /// says.
    pub fn get_history(&self) -> (res: Vec<String>)
        requires
            self.wf(),
        ensures
            strings_view(res@) == spec_history(self@.shell_vars["HISTORY"@]),
    {
        let h = match self.shell_variables.get("HISTORY") {
            Some(h) => h,
            None => unreached(),
        };
        let v = chars_of(h.as_str());
        let pieces = split_chars(&v, '\n');
        let ghost ps = char_vecs_view(pieces@);
        let ghost ls = lines(v@);
        proof {
            crate::text::lemma_split_pieces_nonempty(v@, char_pred('\n'));
        }
        let n = pieces.len();
        let mut kept: Vec<String> = Vec::new();
        let mut i: usize = 0;
        proof {
            assert(ls.take(0) =~= Seq::<Seq<char>>::empty());
            assert(strings_view(kept@) =~= nonempty(ls.take(0)));
        }
        while i < n
            invariant
                n == pieces.len() >= 1,
                ps == char_vecs_view(pieces@),
                ps == split_pieces(v@, char_pred('\n')),
                ls == lines(v@),
                i <= n,
                i < n ==> ls.take(i as int) == ps.take(i as int).map_values(|l: Seq<char>| strip_cr(l)),
                i == n ==> ls.take(ls.len() as int) == ls,
                strings_view(kept@) == nonempty(ls.take(if i < n { i as int } else { ls.len() as int })),
            decreases n - i,
        {
            let piece = &pieces[i];
            let mut end = piece.len();
            if i + 1 < n && end > 0 && piece[end - 1] == '\r' {
                end = end - 1;
            }
            let ghost line = piece@.subrange(0, end as int);
            proof {
                assert(ps[i as int] == piece@);
                if i + 1 < n {
                    assert(line =~= strip_cr(piece@));
                } else {
                    assert(line =~= piece@);
                }
            }
            if end > 0 {
                let s = crate::text::string_from_range(piece, 0, end);
                let ghost before = kept@;
                kept.push(s);
                proof {
                    assert(strings_view(kept@) =~= strings_view(before).push(line));
                }
            }
            proof {
                if i + 1 < n {
                    assert(ls.take(i + 1) =~= ps.take(i + 1).map_values(|l: Seq<char>| strip_cr(l)));
                    assert(ls.take(i + 1) =~= ls.take(i as int).push(line));
                    crate::text::lemma_nonempty_push(ls.take(i as int), line);
                } else {
                    if line.len() > 0 {
                        assert(ls =~= ls.take(i as int).push(line));
                        crate::text::lemma_nonempty_push(ls.take(i as int), line);
                    } else {
                        assert(ls =~= ls.take(i as int));
                    }
                    assert(ls.take(ls.len() as int) =~= ls);
                }
            }
            i = i + 1;
        }
        let mut res: Vec<String> = Vec::new();
        let mut k = kept.len();
        while k > 0
            invariant
                k <= kept.len(),
                strings_view(res@) == strings_view(kept@).reverse().subrange(0, kept.len() - k),
            decreases k,
        {
            k = k - 1;
            let x = kept[k].clone();
            let ghost before = res@;
            res.push(x);
            proof {
                assert(x@ == strings_view(kept@)[k as int]);
                assert(strings_view(kept@).reverse()[kept.len() - k - 1] == x@);
                assert(strings_view(res@) =~= strings_view(before).push(x@));
                assert(strings_view(res@) =~= strings_view(kept@).reverse().subrange(0, kept.len() - k));
            }
        }
        proof {
            assert(strings_view(kept@).reverse().subrange(0, kept.len() as int) =~= strings_view(kept@).reverse());
        }
        res
    }

    /// Sets `?` to the decimal text of the status.
    pub fn update_status(&mut self, status: i32)
        requires
            old(self).wf(),
        ensures
            final(self).wf(),
            final(self)@.shell_vars == old(self)@.shell_vars.insert("?"@, int_text(status as int)),
            final(self)@.intern_vars == old(self)@.intern_vars,
            final(self)@.extern_vars == old(self)@.extern_vars,
    {
        proof {
            lemma_names_distinct();
        }
        let k = lit("?");
        let v = i64_text(status as i64);
        let ghost m0 = self.shell_variables@;
        self.shell_variables.insert(k, v);
        proof {
            lemma_text_map_insert(m0, k@, v);
            assert(text_map(self.shell_variables@)["?"@] == int_text(status as int));
        }
    }

    /// The status that `?` holds.
    pub fn get_status(&self) -> (res: i32)
        requires
            self.wf(),
        ensures
            self@.shell_vars["?"@] == int_text(res as int),
    {
        let ghost n = choose|n: i32| text_map(self.shell_variables@)["?"@] == int_text(n as int);
        match self.shell_variables.get("?") {
            Some(s) => parse_int_text(s.as_str(), Ghost(n)),
            None => unreached(),
        }
    }

    /// The value of a variable, as `lookup` says.
    pub fn look_into_variables(&self, variables: &str) -> (res: Option<&str>)
        ensures
            match res {
                Some(r) => lookup(self@, variables@) == Some(r@),
                None => lookup(self@, variables@) is None,
            },
    {
        if let Some(v) = self.shell_variables.get(variables) {
            return Some(v.as_str());
        } else if let Some(v) = self.intern_variables.get(variables) {
            return Some(v.as_str());
        } else if let Some(v) = self.extern_variables.get(variables) {
            return Some(v.as_str());
        } else {
            return None;
        }
    }

    /// Appends the value of a variable to `to_push_in`, as `spec_push_in`
    /// says; an empty name stands for a lone `$`.
    pub fn push_in_var_or(&self, to_push_in: &mut String, value_to_push: String) -> (res: Result<
        (),
        ShellError,
    >)
        ensures
            match res {
                Ok(()) => spec_push_in(self@, old(to_push_in)@, value_to_push@) == Ok::<
                    _,
                    SpecShellError,
                >(final(to_push_in)@),
                Err(e) => spec_push_in(self@, old(to_push_in)@, value_to_push@) == Err::<
                    Seq<char>,
                    _,
                >(e@) && final(to_push_in)@ == old(to_push_in)@,
            },
    {
        if value_to_push.as_str().is_empty() {
            push_char(to_push_in, '$');
            return Ok(());
        }
        match self.look_into_variables(value_to_push.as_str()) {
            Some(value) => {
                to_push_in.append(value);
                Ok(())
            },
            None => Err(ShellError::VarNotFound(value_to_push)),
        }
    }

    /// Replaces the variable references that start at `pos` in `var_name`
    /// by their values, as `spec_parse_variables` says, and moves `pos` to
    /// where it stopped: at the end, or at a space or the closing `quote`.
    pub fn parse_variables(&self, var_name: &[char], pos: &mut usize, quote: Option<char>) -> (res:
        Result<String, ShellError>)
        requires
            *old(pos) <= var_name@.len(),
        ensures
            match res {
                Ok(r) => spec_parse_variables(
                    self@,
                    var_name@,
                    *old(pos) as int,
                    quote,
                    Seq::empty(),
                    Seq::empty(),
                ) == Ok::<_, SpecShellError>((r@, *final(pos) as int)),
                Err(e) => spec_parse_variables(
                    self@,
                    var_name@,
                    *old(pos) as int,
                    quote,
                    Seq::empty(),
                    Seq::empty(),
                ) == Err::<(Seq<char>, int), _>(e@),
            },
    {
        let ghost start = *pos as int;
        let mut var_value = String::new();
        let mut current_var_value = String::new();
        while *pos < var_name.len()
            invariant
                *pos <= var_name@.len(),
                start == *old(pos) as int,
                spec_parse_variables(self@, var_name@, start, quote, Seq::empty(), Seq::empty())
                    == spec_parse_variables(
                    self@,
                    var_name@,
                    *pos as int,
                    quote,
                    var_value@,
                    current_var_value@,
                ),
            decreases var_name@.len() - *pos,
        {
            let next_char = var_name[*pos];
            let is_quote = match quote {
                Some(q) => q == next_char,
                None => false,
            };
            let ghost g_acc = var_value@;
            let ghost g_cur = current_var_value@;
            proof {
                assert(var_name@[*pos as int] == next_char);
                assert(is_quote == (quote == Some(next_char)));
            }
            if is_quote || next_char == ' ' {
                let name = current_var_value;
                match self.push_in_var_or(&mut var_value, name) {
                    Err(e) => {
                        proof {
                            assert(spec_push_in(self@, g_acc, g_cur) == Err::<Seq<char>, SpecShellError>(e@));
                            assert(spec_parse_variables(self@, var_name@, *pos as int, quote, g_acc, g_cur)
                                == Err::<(Seq<char>, int), SpecShellError>(e@));
                            assert(spec_parse_variables(self@, var_name@, start, quote, Seq::empty(), Seq::empty())
                                == Err::<(Seq<char>, int), SpecShellError>(e@));
                        }
                        return Err(e);
                    },
                    Ok(()) => {},
                }
                push_char(&mut var_value, '$');
                return Ok(var_value);
            } else if next_char == '$' {
                let name = current_var_value;
                match self.push_in_var_or(&mut var_value, name) {
                    Err(e) => {
                        proof {
                            assert(spec_push_in(self@, g_acc, g_cur) == Err::<Seq<char>, SpecShellError>(e@));
                            assert(spec_parse_variables(self@, var_name@, *pos as int, quote, g_acc, g_cur)
                                == Err::<(Seq<char>, int), SpecShellError>(e@));
                            assert(spec_parse_variables(self@, var_name@, start, quote, Seq::empty(), Seq::empty())
                                == Err::<(Seq<char>, int), SpecShellError>(e@));
                        }
                        return Err(e);
                    },
                    Ok(()) => {},
                }
                current_var_value = String::new();
            } else {
                push_char(&mut current_var_value, next_char);
            }
            *pos = *pos + 1;
        }
        if current_var_value.as_str().is_empty() {
            push_char(&mut var_value, '$');
        } else {
            match self.push_in_var_or(&mut var_value, current_var_value) {
                Err(e) => {
                    return Err(e);
                },
                Ok(()) => {},
            }
        }
        Ok(var_value)
    }

    /// The text of quoted text once its variable references are replaced,
    /// from position `i`, after `acc`.
    fn expand_quote_from(&self, q: &Vec<char>, i: usize, acc: String) -> (res: Result<String, ShellError>)
        requires
            1 <= i <= q@.len(),
        ensures
            match res {
                Ok(r) => spec_expand_quote(self@, q@, i as int, acc@) == Ok::<_, SpecShellError>(r@),
                Err(e) => spec_expand_quote(self@, q@, i as int, acc@) == Err::<Seq<char>, _>(e@),
            },
    {
        let mut out = acc;
        let mut k = i;
        while k < q.len()
            invariant
                1 <= k <= q@.len(),
                spec_expand_quote(self@, q@, i as int, acc@) == spec_expand_quote(self@, q@, k as int, out@),
            decreases q@.len() - k,
        {
            if q[k] == '$' {
                let mut pos = k + 1;
                proof {
                    lemma_parse_variables_end(self@, q@, k + 1, Some('"'), Seq::empty(), Seq::empty());
                }
                let ghost g_acc = out@;
                match self.parse_variables(q.as_slice(), &mut pos, Some('"')) {
                    Err(e) => {
                        proof {
                            assert(spec_expand_quote(self@, q@, k as int, g_acc) == Err::<Seq<char>, SpecShellError>(e@));
                        }
                        return Err(e);
                    },
                    Ok(value) => {
                        out.append(value.as_str());
                        k = pos;
                    },
                }
            } else {
                push_char(&mut out, q[k]);
                k = k + 1;
            }
        }
        Ok(out)
    }

    /// A token with its variable references replaced by their values, as
    /// `spec_expand_token` says.
    pub fn expand_token(&self, token: Token) -> (res: Result<Token, ShellError>)
        ensures
            match res {
                Ok(t) => spec_expand_token(self@, token@) == Ok::<_, SpecShellError>(t@),
                Err(e) => spec_expand_token(self@, token@) == Err::<SpecToken, _>(e@),
            },
    {
        match token {
            Token::NotOperator(TokenNotOperator::Variable(var_name)) => {
                let chars = chars_of(var_name.as_str());
                let mut pos: usize = 0;
                let value = self.parse_variables(chars.as_slice(), &mut pos, None)?;
                Ok(Token::get_command(value))
            },
            Token::NotOperator(TokenNotOperator::Inquote(in_quote)) => {
                let chars = chars_of(in_quote.as_str());
                if chars.len() > 0 && chars[0] == '\'' {
                    return Ok(Token::NotOperator(TokenNotOperator::Inquote(in_quote)));
                }
                let mut new_quote = String::new();
                push_char(&mut new_quote, '"');
                if chars.len() == 0 {
                    return Ok(Token::NotOperator(TokenNotOperator::Inquote(new_quote)));
                }
                let expanded = self.expand_quote_from(&chars, 1, new_quote)?;
                Ok(Token::NotOperator(TokenNotOperator::Inquote(expanded)))
            },
            other => Ok(other),
        }
    }

    /// The tokens with their variable references replaced by their values,
    /// as `spec_expand_variables` says: the first token that cannot be
    /// expanded gives the error.
    pub fn expand_variables(&self, tokens: Vec<Token>) -> (res: Result<Vec<Token>, ShellError>)
        ensures
            match res {
                Ok(t) => spec_expand_variables(self@, tokens_view(tokens@), 0) == Ok::<
                    _,
                    SpecShellError,
                >(tokens_view(t@)),
                Err(e) => spec_expand_variables(self@, tokens_view(tokens@), 0) == Err::<
                    Seq<SpecToken>,
                    _,
                >(e@),
            },
    {
        let ghost s = tokens_view(tokens@);
        let mut out: Vec<Token> = Vec::new();
        let mut i: usize = 0;
        proof {
            assert(tokens_view(out@) =~= Seq::<SpecToken>::empty());
            assert(s.take(0) =~= Seq::<SpecToken>::empty());
        }
        while i < tokens.len()
            invariant
                i <= tokens@.len(),
                s == tokens_view(tokens@),
                spec_expand_variables(self@, s, 0) == match spec_expand_variables(self@, s, i as int) {
                    Ok(r) => Ok(tokens_view(out@) + r),
                    Err(e) => Err(e),
                },
            decreases tokens@.len() - i,
        {
            proof {
                assert(s[i as int] == tokens@[i as int]@);
            }
            let t = self.expand_token(tokens[i].duplicate())?;
            let ghost before = tokens_view(out@);
            out.push(t);
            proof {
                assert(tokens_view(out@) =~= before.push(t@));
                match spec_expand_variables(self@, s, i + 1) {
                    Ok(r) => {
                        assert(before + (seq![t@] + r) =~= tokens_view(out@) + r);
                    },
                    Err(e) => {},
                }
            }
            i = i + 1;
        }
        proof {
            assert(tokens_view(out@) + Seq::<SpecToken>::empty() =~= tokens_view(out@));
        }
        Ok(out)
    }
}

/// Appends the value of the variable `name` to `acc`: an empty name gives a
/// lone `$`, an unknown one is refused.
pub open spec fn spec_push_in(v: SpecVariables, acc: Seq<char>, name: Seq<char>) -> Result<
    Seq<char>,
    SpecShellError,
> {
    if name.len() == 0 {
        Ok(acc.push('$'))
    } else {
        match lookup(v, name) {
            Some(x) => Ok(acc + x),
            None => Err(SpecShellError::VarNotFound(name)),
        }
    }
}

/// Replaces the variable references of `s` from position `i` by their
/// values, with `acc` the text produced so far and `cur` the name being
/// read; gives the text and the position where it stopped.
///
/// `$` ends the name being read; a space, or the closing `quote`, ends it
/// and stops, leaving a `$` after the text; at the end of `s` the name
/// being read is looked up, or a `$` is left when there is none.
pub open spec fn spec_parse_variables(
    v: SpecVariables,
    s: Seq<char>,
    i: int,
    quote: Option<char>,
    acc: Seq<char>,
    cur: Seq<char>,
) -> Result<(Seq<char>, int), SpecShellError>
    decreases s.len() - i,
{
    if i >= s.len() {
        if cur.len() == 0 {
            Ok((acc.push('$'), i))
        } else {
            match spec_push_in(v, acc, cur) {
                Ok(a) => Ok((a, i)),
                Err(e) => Err(e),
            }
        }
    } else {
        let c = s[i];
        if quote == Some(c) || c == ' ' {
            match spec_push_in(v, acc, cur) {
                Ok(a) => Ok((a.push('$'), i)),
                Err(e) => Err(e),
            }
        } else if c == '$' {
            match spec_push_in(v, acc, cur) {
                Ok(a) => spec_parse_variables(v, s, i + 1, quote, a, Seq::empty()),
                Err(e) => Err(e),
            }
        } else {
            spec_parse_variables(v, s, i + 1, quote, acc, cur.push(c))
        }
    }
}

pub proof fn lemma_parse_variables_end(
    v: SpecVariables,
    s: Seq<char>,
    i: int,
    quote: Option<char>,
    acc: Seq<char>,
    cur: Seq<char>,
)
    requires
        i <= s.len(),
    ensures
        spec_parse_variables(v, s, i, quote, acc, cur) matches Ok((_, j)) ==> i <= j <= s.len(),
    decreases s.len() - i,
{
    if i < s.len() {
        let c = s[i];
        if !(quote == Some(c) || c == ' ') {
            if c == '$' {
                if let Ok(a) = spec_push_in(v, acc, cur) {
                    lemma_parse_variables_end(v, s, i + 1, quote, a, Seq::empty());
                }
            } else {
                lemma_parse_variables_end(v, s, i + 1, quote, acc, cur.push(c));
            }
        }
    }
}

/// The text of quoted text `q` from position `i` once each `$name` is
/// replaced by the value of `name` (the name stops at a space or a `"`),
/// after `acc`.
pub open spec fn spec_expand_quote(v: SpecVariables, q: Seq<char>, i: int, acc: Seq<char>) -> Result<
    Seq<char>,
    SpecShellError,
>
    decreases q.len() - i,
{
    if i < 0 || i >= q.len() {
        Ok(acc)
    } else if q[i] == '$' {
        match spec_parse_variables(v, q, i + 1, Some('"'), Seq::empty(), Seq::empty()) {
            Err(e) => Err(e),
            Ok((x, j)) => if i < j <= q.len() {
                spec_expand_quote(v, q, j, acc + x)
            } else {
                Ok(acc)
            },
        }
    } else {
        spec_expand_quote(v, q, i + 1, acc.push(q[i]))
    }
}

/// A token with its variable references replaced: a variable becomes the
/// command made of its value; quoted text that does not start with `'`
/// becomes `"` followed by the rest of it expanded; any other token is kept.
pub open spec fn spec_expand_token(v: SpecVariables, t: SpecToken) -> Result<SpecToken, SpecShellError> {
    match t {
        SpecToken::Variable(name) => match spec_parse_variables(
            v,
            name,
            0,
            None,
            Seq::empty(),
            Seq::empty(),
        ) {
            Ok((x, _)) => Ok(SpecToken::Command(x)),
            Err(e) => Err(e),
        },
        SpecToken::Inquote(q) => if q.len() > 0 && q[0] == '\'' {
            Ok(t)
        } else {
            match spec_expand_quote(v, q, 1, seq!['"']) {
                Ok(x) => Ok(SpecToken::Inquote(x)),
                Err(e) => Err(e),
            }
        },
        _ => Ok(t),
    }
}

/// The tokens from position `i` with their variable references replaced;
/// the first one that cannot be expanded gives the error.
pub open spec fn spec_expand_variables(v: SpecVariables, toks: Seq<SpecToken>, i: int) -> Result<
    Seq<SpecToken>,
    SpecShellError,
>
    decreases toks.len() - i,
{
    if i < 0 || i >= toks.len() {
        Ok(Seq::empty())
    } else {
        match spec_expand_token(v, toks[i]) {
            Err(e) => Err(e),
            Ok(t) => match spec_expand_variables(v, toks, i + 1) {
                Ok(r) => Ok(seq![t] + r),
                Err(e) => Err(e),
            },
        }
    }
}


/// Whether the separator ` \ ` of `export` starts at position `k` of `s`.
pub open spec fn sep_at(s: Seq<char>, k: int) -> bool {
    0 <= k && k + 3 <= s.len() && s[k] == ' ' && s[k + 1] == '\\' && s[k + 2] == ' '
}

/// The first position at or after `j` where the separator starts, or the
/// length of `s`.
pub open spec fn next_sep(s: Seq<char>, j: int) -> int
    decreases s.len() - j,
{
    if j < 0 || j >= s.len() {
        s.len() as int
    } else if sep_at(s, j) {
        j
    } else {
        next_sep(s, j + 1)
    }
}

pub proof fn lemma_next_sep(s: Seq<char>, j: int)
    requires
        0 <= j <= s.len(),
    ensures
        j <= next_sep(s, j) <= s.len(),
        next_sep(s, j) < s.len() ==> sep_at(s, next_sep(s, j)),
    decreases s.len() - j,
{
    if j < s.len() && !sep_at(s, j) {
        lemma_next_sep(s, j + 1);
    }
}

/// The pieces of `s` from position `start` between the separators, as
/// `str::split` with the pattern ` \ ` gives them.
pub open spec fn split_sep_from(s: Seq<char>, start: int) -> Seq<Seq<char>>
    decreases s.len() - start,
{
    let k = next_sep(s, start);
    if start < 0 || start > s.len() || k >= s.len() || k < start || k + 3 > s.len() {
        seq![s.subrange(start, s.len() as int)]
    } else {
        seq![s.subrange(start, k)] + split_sep_from(s, k + 3)
    }
}

/// The name and the value that an assignment of `export` gives, before
/// trimming: the text before the first `=` and the text after it; with no
/// `=`, the whole text is the name; an `=` first gives neither.
pub open spec fn parse_affectation(a: Seq<char>) -> (Seq<char>, Seq<char>) {
    let e = crate::pattern::find_from(a, '=', 0);
    if e >= a.len() {
        (a, Seq::empty())
    } else if e == 0 {
        (Seq::empty(), Seq::empty())
    } else {
        (a.subrange(0, e), a.subrange(e + 1, a.len() as int))
    }
}

/// What one assignment of `export` does: a name with a value becomes an
/// internal variable and stops being an external one; a name alone moves an
/// external variable to the internal ones.
pub open spec fn export_one(v: SpecVariables, a: Seq<char>) -> SpecVariables {
    let name = trim(parse_affectation(a).0);
    let value = trim(parse_affectation(a).1);
    if name.len() > 0 && value.len() > 0 {
        SpecVariables {
            intern_vars: v.intern_vars.insert(name, value),
            extern_vars: v.extern_vars.remove(name),
            ..v
        }
    } else if name.len() > 0 && v.extern_vars.contains_key(name) {
        SpecVariables {
            intern_vars: v.intern_vars.insert(name, v.extern_vars[name]),
            extern_vars: v.extern_vars.remove(name),
            ..v
        }
    } else {
        v
    }
}

/// The assignments applied in order.
pub open spec fn export_all(v: SpecVariables, affs: Seq<Seq<char>>) -> SpecVariables
    decreases affs.len(),
{
    if affs.len() == 0 {
        v
    } else {
        export_one(export_all(v, affs.drop_last()), affs.last())
    }
}

/// What `export` does with its arguments: they are joined with spaces, cut
/// at each ` \ `, and each piece is an assignment.
pub open spec fn spec_export(v: SpecVariables, args: Seq<Seq<char>>) -> SpecVariables {
    export_all(v, split_sep_from(join_spaces(args), 0))
}

impl ShellVariables {
    /// Applies one assignment of `export`, as `export_one` says.
    fn export_affectation(&mut self, a: &Vec<char>)
        requires
            old(self).wf(),
        ensures
            final(self).wf(),
            final(self)@ == export_one(old(self)@, a@),
    {
        proof {
            crate::pattern::lemma_find_from(a@, '=', 0);
        }
        let mut e: usize = 0;
        while e < a.len() && a[e] != '='
            invariant
                e <= a.len(),
                crate::pattern::find_from(a@, '=', 0) == crate::pattern::find_from(a@, '=', e as int),
            decreases a.len() - e,
        {
            e = e + 1;
        }
        let var_chars;
        let value_chars;
        if e >= a.len() {
            var_chars = crate::text::copy_range(a, 0, a.len());
            value_chars = Vec::new();
            proof {
                assert(a@.subrange(0, a@.len() as int) =~= a@);
            }
        } else if e == 0 {
            var_chars = Vec::new();
            value_chars = Vec::new();
        } else {
            var_chars = crate::text::copy_range(a, 0, e);
            value_chars = crate::text::copy_range(a, e + 1, a.len());
        }
        proof {
            assert(var_chars@ == parse_affectation(a@).0);
            assert(value_chars@ =~= parse_affectation(a@).1);
        }
        let var = string_from_chars(&trim_chars(&var_chars));
        let value = string_from_chars(&trim_chars(&value_chars));
        let var_empty = var.as_str().is_empty();
        let value_empty = value.as_str().is_empty();
        if !var_empty && !value_empty {
            let ghost i0 = self.intern_variables@;
            let ghost e0 = self.extern_variables@;
            let key = var.clone();
            self.intern_variables.insert(key, value);
            self.extern_variables.remove(var.as_str());
            proof {
                lemma_text_map_insert(i0, key@, value);
                lemma_text_map_remove(e0, var@);
            }
        } else if !var_empty {
            let moved = match self.extern_variables.get(var.as_str()) {
                Some(x) => Some(x.clone()),
                None => None,
            };
            if let Some(x) = moved {
                let ghost i0 = self.intern_variables@;
                let ghost e0 = self.extern_variables@;
                self.extern_variables.remove(var.as_str());
                let key = var.clone();
                self.intern_variables.insert(key, x);
                proof {
                    lemma_text_map_insert(i0, key@, x);
                    lemma_text_map_remove(e0, var@);
                }
            }
        }
        proof {
            assert(self@ == export_one(old(self)@, a@));
        }
    }

    /// `export`: joins the arguments with spaces, cuts the text at each
    /// ` \ ` and applies each assignment, as `spec_export` says; the
    /// status is 0.
    pub fn export(&mut self, instruction: &mut Instruction) -> (status: i32)
        requires
            old(self).wf(),
        ensures
            final(self).wf(),
            final(self)@ == spec_export(old(self)@, old(instruction)@.args),
            final(instruction)@ == old(instruction)@,
            status == 0,
    {
        let all = Input::read_from_stdout(instruction.get_args());
        let s = chars_of(all.as_str());
        let n = s.len();
        let ghost affs = split_sep_from(s@, 0);
        let mut start: usize = 0;
        let mut i: usize = 0;
        let ghost done: Seq<Seq<char>> = Seq::empty();
        let ghost v0 = self@;
        proof {
            lemma_next_sep(s@, 0);
        }
        while i < n
            invariant
                n == s@.len(),
                start <= i <= n,
                self.wf(),
                affs == split_sep_from(s@, 0),
                affs == done + split_sep_from(s@, start as int),
                next_sep(s@, start as int) == next_sep(s@, i as int),
                self@ == export_all(v0, done),
            decreases n - i,
        {
            if n - i >= 3 && s[i] == ' ' && s[i + 1] == '\\' && s[i + 2] == ' ' {
                let piece = crate::text::copy_range(&s, start, i);
                proof {
                    assert(sep_at(s@, i as int));
                    assert(next_sep(s@, i as int) == i);
                    assert(split_sep_from(s@, start as int) == seq![s@.subrange(start as int, i as int)]
                        + split_sep_from(s@, i + 3));
                    assert(done.push(piece@).drop_last() =~= done);
                }
                self.export_affectation(&piece);
                proof {
                    assert(affs =~= done.push(piece@) + split_sep_from(s@, i + 3));
                    done = done.push(piece@);
                    lemma_next_sep(s@, i + 3);
                }
                i = i + 3;
                start = i;
            } else {
                proof {
                    assert(!sep_at(s@, i as int));
                }
                i = i + 1;
            }
        }
        let piece = crate::text::copy_range(&s, start, n);
        proof {
            assert(next_sep(s@, n as int) == n);
            assert(split_sep_from(s@, start as int) == seq![s@.subrange(start as int, n as int)]);
            assert(affs =~= done.push(piece@));
            assert(done.push(piece@).drop_last() =~= done);
        }
        self.export_affectation(&piece);
        0
    }
}


/// The commands that the shell runs itself.
#[derive(Clone, Copy, Debug, PartialEq, Eq, Structural)]
pub enum ShellCommands {
    ECHO,
    CD,
    EXIT,
    PWD,
    EXPORT,
    HISTORY,
    RSH,
}

/// The command that the shell runs itself under a name, if any.
pub open spec fn spec_shell_command(name: Seq<char>) -> Option<ShellCommands> {
    if name == "echo"@ {
        Some(ShellCommands::ECHO)
    } else if name == "cd"@ {
        Some(ShellCommands::CD)
    } else if name == "exit"@ {
        Some(ShellCommands::EXIT)
    } else if name == "pwd"@ {
        Some(ShellCommands::PWD)
    } else if name == "export"@ {
        Some(ShellCommands::EXPORT)
    } else if name == "history"@ {
        Some(ShellCommands::HISTORY)
    } else if name == "rsh"@ {
        Some(ShellCommands::RSH)
    } else {
        None
    }
}

/// Whether `v` holds exactly the characters of `lit`.
fn chars_equal(v: &Vec<char>, lit: &str) -> (b: bool)
    ensures
        b == (v@ == lit@),
{
    let w = chars_of(lit);
    if v.len() != w.len() {
        return false;
    }
    let mut i: usize = 0;
    while i < v.len()
        invariant
            v@.len() == w@.len(),
            w@ == lit@,
            i <= v@.len(),
            forall|k: int| 0 <= k < i ==> v@[k] == w@[k],
        decreases v.len() - i,
    {
        if v[i] != w[i] {
            return false;
        }
        i = i + 1;
    }
    proof {
        assert(v@ =~= w@);
    }
    true
}

impl ShellCommands {
    /// The command that the shell runs itself under `name`, if any.
    pub fn from_name(name: &str) -> (res: Option<ShellCommands>)
        ensures
            res == spec_shell_command(name@),
    {
        let v = chars_of(name);
        if chars_equal(&v, "echo") {
            Some(ShellCommands::ECHO)
        } else if chars_equal(&v, "cd") {
            Some(ShellCommands::CD)
        } else if chars_equal(&v, "exit") {
            Some(ShellCommands::EXIT)
        } else if chars_equal(&v, "pwd") {
            Some(ShellCommands::PWD)
        } else if chars_equal(&v, "export") {
            Some(ShellCommands::EXPORT)
        } else if chars_equal(&v, "history") {
            Some(ShellCommands::HISTORY)
        } else if chars_equal(&v, "rsh") {
            Some(ShellCommands::RSH)
        } else {
            None
        }
    }
}

/// Each text followed by a space, concatenated.
pub open spec fn spaced(args: Seq<Seq<char>>) -> Seq<char>
    decreases args.len(),
{
    if args.len() == 0 {
        Seq::empty()
    } else {
        spaced(args.drop_last()) + args.last() + seq![' ']
    }
}

/// What `echo` writes: a newline when it reads from a file or a pipe or has
/// no argument; otherwise each argument followed by a space, then a newline,
/// except that a first argument `-n` (once trimmed) is not written and
/// drops the newline.
pub open spec fn spec_echo(input: SpecInput, args: Seq<Seq<char>>) -> Seq<char> {
    match input {
        SpecInput::Stdin => if args.len() == 0 {
            seq!['\n']
        } else if trim(args[0]) == "-n"@ {
            spaced(args.drop_first())
        } else {
            spaced(args) + seq!['\n']
        },
        _ => seq!['\n'],
    }
}

/// The message of `cd` when it gets too many arguments.
pub open spec fn cd_arity_message(n: nat) -> Seq<char> {
    "cd needs 0 or 1 arguments found: "@ + nat_text(n) + " arguments"@
}

/// Where `cd` goes, or the message it prints: with no argument, the `HOME`
/// of the shell's own table (`cd: $HOME not set` without one); with one, that
/// argument; with more, a message that gives their number.
pub open spec fn spec_cd_target(v: SpecVariables, args: Seq<Seq<char>>) -> Result<Seq<char>, Seq<char>> {
    if args.len() > 1 {
        Err(cd_arity_message(args.len()))
    } else if args.len() == 0 {
        if v.shell_vars.contains_key("HOME"@) {
            Ok(v.shell_vars["HOME"@])
        } else {
            Err("cd: $HOME not set"@)
        }
    } else {
        Ok(args[0])
    }
}

/// The error for a command that cannot be found.
pub open spec fn not_found(cmd: Seq<char>) -> SpecShellError {
    SpecShellError::CommandError("command "@ + cmd + " not found"@)
}

/// The first position at or after `i` that `found` marks, if any, before
/// `n`.
pub open spec fn first_found(found: Seq<bool>, i: int, n: int) -> Option<int>
    decreases n - i,
{
    if i < 0 || i >= n || i >= found.len() {
        None
    } else if found[i] {
        Some(i)
    } else {
        first_found(found, i + 1, n)
    }
}

/// Where a command is: a name with a `/` is itself if it is a file; any
/// other name is `dir/name` for the first directory `dir` of `dirs` that
/// holds it as a file. `found` tells which of the probes found a file.
pub open spec fn spec_look_for_path(cmd: Seq<char>, dirs: Seq<Seq<char>>, found: Seq<bool>) -> Result<
    Seq<char>,
    SpecShellError,
> {
    if cmd.contains('/') {
        if found.len() > 0 && found[0] {
            Ok(cmd)
        } else {
            Err(not_found(cmd))
        }
    } else {
        match first_found(found, 0, dirs.len() as int) {
            Some(k) => Ok(dirs[k] + seq!['/'] + cmd),
            None => Err(not_found(cmd)),
        }
    }
}

/// The members of `names` that start with `prefix`, in order.
pub open spec fn starting_with(names: Seq<Seq<char>>, prefix: Seq<char>) -> Seq<Seq<char>>
    decreases names.len(),
{
    if names.len() == 0 {
        Seq::empty()
    } else if prefix.is_prefix_of(names.last()) {
        starting_with(names.drop_last(), prefix).push(names.last())
    } else {
        starting_with(names.drop_last(), prefix)
    }
}

/// The names of all listings that start with `prefix`, listing after
/// listing.
pub open spec fn all_starting_with(listings: Seq<Seq<Seq<char>>>, prefix: Seq<char>) -> Seq<Seq<char>>
    decreases listings.len(),
{
    if listings.len() == 0 {
        Seq::empty()
    } else {
        all_starting_with(listings.drop_last(), prefix) + starting_with(listings.last(), prefix)
    }
}

/// The directory and the name prefix that a partial path stands for: the
/// text up to and including its last `/` (each piece followed by `/`) and
/// the rest; with no `/`, the current directory `.` and the whole text.
pub open spec fn completion_dir(cmd: Seq<char>) -> (Seq<char>, Seq<char>) {
    if cmd.contains('/') {
        let p = split_pieces(cmd, char_pred('/'));
        (slashed(p.drop_last()), p.last())
    } else {
        ("."@, cmd)
    }
}

/// Each piece followed by `/`, concatenated.
pub open spec fn slashed(pieces: Seq<Seq<char>>) -> Seq<char>
    decreases pieces.len(),
{
    if pieces.len() == 0 {
        Seq::empty()
    } else {
        slashed(pieces.drop_last()) + pieces.last() + seq!['/']
    }
}

/// `name` inside `dir`: joined with a `/` unless `dir` already ends with one.
pub open spec fn join_path(dir: Seq<char>, name: Seq<char>) -> Seq<char> {
    if dir.len() > 0 && dir.last() == '/' {
        dir + name
    } else {
        dir + seq!['/'] + name
    }
}

/// The completions of a partial path: each entry of its directory (name and
/// whether it is a directory) whose name starts with the prefix, as a path,
/// with a `/` after a directory.
pub open spec fn file_completions(dir: Seq<char>, prefix: Seq<char>, entries: Seq<(Seq<char>, bool)>) -> Seq<
    Seq<char>,
>
    decreases entries.len(),
{
    if entries.len() == 0 {
        Seq::empty()
    } else {
        let rest = file_completions(dir, prefix, entries.drop_last());
        let (name, is_dir) = entries.last();
        if prefix.is_prefix_of(name) {
            rest.push(
                if is_dir {
                    join_path(dir, name) + seq!['/']
                } else {
                    join_path(dir, name)
                },
            )
        } else {
            rest
        }
    }
}

/// Whether `p` is a prefix of `v`.
fn starts_with_chars(v: &Vec<char>, p: &Vec<char>) -> (b: bool)
    ensures
        b == p@.is_prefix_of(v@),
{
    if p.len() > v.len() {
        return false;
    }
    let mut i: usize = 0;
    while i < p.len()
        invariant
            p@.len() <= v@.len(),
            i <= p@.len(),
            forall|k: int| 0 <= k < i ==> p@[k] == v@[k],
        decreases p.len() - i,
    {
        if p[i] != v[i] {
            return false;
        }
        i = i + 1;
    }
    proof {
        assert(p@ =~= v@.subrange(0, p@.len() as int));
    }
    true
}

impl ShellVariables {
    /// What `echo` writes for an instruction, as `spec_echo` says.
    pub fn echo(&self, instruction: &Instruction) -> (res: String)
        ensures
            res@ == spec_echo(instruction@.input, instruction@.args),
    {
        let mut buffer = String::new();
        match instruction.get_i() {
            Input::File(_) | Input::Pipe => {
                push_char(&mut buffer, '\n');
            },
            Input::Stdin => {
                let args = instruction.get_args();
                if args.len() == 0 {
                    push_char(&mut buffer, '\n');
                } else {
                    let first = chars_of(args[0].as_str());
                    let option_n = chars_equal(&trim_chars(&first), "-n");
                    if !option_n {
                        buffer.append(args[0].as_str());
                        push_char(&mut buffer, ' ');
                    }
                    let ghost a = strings_view(args@);
                    proof {
                        assert(a.subrange(0, 1).drop_last() =~= Seq::<Seq<char>>::empty());
                        assert(a.drop_first().subrange(0, 0) =~= Seq::<Seq<char>>::empty());
                        assert(a[0] == args@[0]@);
                        assert(a.subrange(0, 1).last() == a[0]);
                        assert(spaced(a.subrange(0, 1).drop_last()) =~= Seq::<char>::empty());
                        if !option_n {
                            assert(buffer@ =~= spaced(a.subrange(0, 1)));
                        }
                    }
                    let mut i: usize = 1;
                    while i < args.len()
                        invariant
                            1 <= i <= args@.len(),
                            a == strings_view(args@),
                            !option_n ==> buffer@ == spaced(a.subrange(0, i as int)),
                            option_n ==> buffer@ == spaced(a.drop_first().subrange(0, i - 1)),
                        decreases args.len() - i,
                    {
                        buffer.append(args[i].as_str());
                        push_char(&mut buffer, ' ');
                        proof {
                            assert(a.subrange(0, i + 1).drop_last() =~= a.subrange(0, i as int));
                            assert(a.drop_first().subrange(0, i as int).drop_last() =~= a.drop_first().subrange(0, i - 1));
                            assert(a[i as int] == args@[i as int]@);
                        }
                        i = i + 1;
                    }
                    proof {
                        assert(a.subrange(0, i as int) =~= a);
                        assert(a.drop_first().subrange(0, i - 1) =~= a.drop_first());
                    }
                    if !option_n {
                        push_char(&mut buffer, '\n');
                    }
                }
            },
        }
        buffer
    }

    /// Where `cd` goes, or the message it prints, as `spec_cd_target` says.
    pub fn cd_target(&self, instruction: &Instruction) -> (res: Result<String, String>)
        ensures
            match res {
                Ok(t) => spec_cd_target(self@, instruction@.args) == Ok::<_, Seq<char>>(t@),
                Err(m) => spec_cd_target(self@, instruction@.args) == Err::<Seq<char>, _>(m@),
            },
    {
        let n = instruction.get_len_args();
        if n > 1 {
            let mut m = String::from_str("cd needs 0 or 1 arguments found: ");
            let count = crate::number::u64_text(n as u64);
            m.append(count.as_str());
            m.append(" arguments");
            return Err(m);
        }
        if n == 0 {
            match self.shell_variables.get("HOME") {
                Some(home) => Ok(home.clone()),
                None => Err(String::from_str("cd: $HOME not set")),
            }
        } else {
            let mut args = instruction.get_args();
            Ok(args.remove(0))
        }
    }

    /// The directories of `PATH`, in order.
    pub fn path_dirs(&self) -> (res: Vec<String>)
        requires
            lookup(self@, "PATH"@) is Some,
        ensures
            strings_view(res@) == split_pieces(lookup(self@, "PATH"@)->0, char_pred(':')),
    {
        let path = match self.look_into_variables("PATH") {
            Some(p) => p,
            None => unreached(),
        };
        let v = chars_of(path);
        let pieces = split_chars(&v, ':');
        let mut res: Vec<String> = Vec::new();
        let mut i: usize = 0;
        while i < pieces.len()
            invariant
                i <= pieces.len(),
                strings_view(res@) == char_vecs_view(pieces@).subrange(0, i as int),
            decreases pieces.len() - i,
        {
            let x = string_from_chars(&pieces[i]);
            let ghost before = res@;
            res.push(x);
            proof {
                assert(strings_view(res@) =~= strings_view(before).push(x@));
                assert(x@ == char_vecs_view(pieces@)[i as int]);
                assert(char_vecs_view(pieces@).subrange(0, i + 1) =~= char_vecs_view(pieces@).subrange(0, i as int).push(x@));
            }
            i = i + 1;
            proof {
                assert(strings_view(res@) =~= char_vecs_view(pieces@).subrange(0, i as int));
            }
        }
        proof {
            assert(char_vecs_view(pieces@).subrange(0, i as int) =~= char_vecs_view(pieces@));
        }
        res
    }

    /// Where a command is, as `spec_look_for_path` says. For a name without
    /// `/`, `found[k]` tells whether the `k`-th directory of `PATH` holds it
    /// as a file (`PATH` must be set); for a name with `/`, `found[0]` tells
    /// whether the name itself is a file.
    pub fn look_for_path(&self, cmd: &str, found: &Vec<bool>) -> (res: Result<String, ShellError>)
        requires
            cmd@.contains('/') ==> found@.len() == 1,
            !cmd@.contains('/') ==> lookup(self@, "PATH"@) is Some && found@.len() == split_pieces(
                lookup(self@, "PATH"@)->0,
                char_pred(':'),
            ).len(),
        ensures
            match res {
                Ok(p) => Ok::<_, SpecShellError>(p@) == spec_look_for_path(
                    cmd@,
                    if cmd@.contains('/') { Seq::empty() } else {
                        split_pieces(lookup(self@, "PATH"@)->0, char_pred(':'))
                    },
                    found@,
                ),
                Err(e) => Err::<Seq<char>, _>(e@) == spec_look_for_path(
                    cmd@,
                    if cmd@.contains('/') { Seq::empty() } else {
                        split_pieces(lookup(self@, "PATH"@)->0, char_pred(':'))
                    },
                    found@,
                ),
            },
    {
        let v = chars_of(cmd);
        let mut response = String::from_str("command ");
        response.append(cmd);
        response.append(" not found");
        if crate::text::contains_char(&v, '/') {
            if found[0] {
                return Ok(String::from_str(cmd));
            }
            return Err(ShellError::CommandError(response));
        }
        let dirs = self.path_dirs();
        let mut i: usize = 0;
        while i < dirs.len()
            invariant
                i <= dirs@.len(),
                found@.len() == dirs@.len(),
                !cmd@.contains('/'),
                strings_view(dirs@) == split_pieces(lookup(self@, "PATH"@)->0, char_pred(':')),
                first_found(found@, 0, dirs@.len() as int) == first_found(found@, i as int, dirs@.len() as int),
            decreases dirs.len() - i,
        {
            if found[i] {
                let mut r = dirs[i].clone();
                push_char(&mut r, '/');
                r.append(cmd);
                proof {
                    assert(strings_view(dirs@)[i as int] == dirs@[i as int]@);
                    assert(first_found(found@, i as int, dirs@.len() as int) == Some(i as int));
                    assert(!cmd@.contains('/'));
                    let ds = split_pieces(lookup(self@, "PATH"@)->0, char_pred(':'));
                    assert(ds.len() == dirs@.len());
                    assert(r@ =~= ds[i as int] + seq!['/'] + cmd@);
                    assert(spec_look_for_path(cmd@, ds, found@) == Ok::<_, SpecShellError>(r@));
                }
                return Ok(r);
            }
            i = i + 1;
        }
        Err(ShellError::CommandError(response))
    }

    /// The names, among the listings of the directories of `PATH`, that
    /// start with `cmd`, as `all_starting_with` says; `listings[k]` holds
    /// the names in the `k`-th directory (`PATH` must be set).
    pub fn look_for_path_starting_with(&self, cmd: &str, listings: &Vec<Vec<String>>) -> (res: Vec<String>)
        requires
            lookup(self@, "PATH"@) is Some,
            listings@.len() == split_pieces(lookup(self@, "PATH"@)->0, char_pred(':')).len(),
        ensures
            strings_view(res@) == all_starting_with(
                listings@.map_values(|l: Vec<String>| strings_view(l@)),
                cmd@,
            ),
    {
        let prefix = chars_of(cmd);
        let ghost ls = listings@.map_values(|l: Vec<String>| strings_view(l@));
        let mut candidates: Vec<String> = Vec::new();
        let mut k: usize = 0;
        proof {
            assert(ls.take(0) =~= Seq::<Seq<Seq<char>>>::empty());
        }
        while k < listings.len()
            invariant
                k <= listings@.len(),
                prefix@ == cmd@,
                ls == listings@.map_values(|l: Vec<String>| strings_view(l@)),
                strings_view(candidates@) == all_starting_with(ls.take(k as int), cmd@),
            decreases listings.len() - k,
        {
            let names = &listings[k];
            let ghost before_k = strings_view(candidates@);
            let ghost nv = strings_view(names@);
            let mut j: usize = 0;
            proof {
                assert(nv.take(0) =~= Seq::<Seq<char>>::empty());
                assert(before_k + starting_with(nv.take(0), cmd@) =~= before_k);
            }
            while j < names.len()
                invariant
                    j <= names@.len(),
                    prefix@ == cmd@,
                    nv == strings_view(names@),
                    strings_view(candidates@) == before_k + starting_with(nv.take(j as int), cmd@),
                decreases names.len() - j,
            {
                let name = chars_of(names[j].as_str());
                proof {
                    assert(nv.take(j + 1).drop_last() =~= nv.take(j as int));
                    assert(nv.take(j + 1).last() == names@[j as int]@);
                }
                if starts_with_chars(&name, &prefix) {
                    let x = names[j].clone();
                    let ghost before = candidates@;
                    candidates.push(x);
                    proof {
                        assert(strings_view(candidates@) =~= strings_view(before).push(x@));
                    }
                }
                j = j + 1;
            }
            proof {
                assert(nv.take(j as int) =~= nv);
                assert(ls[k as int] == nv);
                assert(ls.take(k + 1).drop_last() =~= ls.take(k as int));
                assert(ls.take(k + 1).last() == nv);
            }
            k = k + 1;
        }
        proof {
            assert(ls.take(k as int) =~= ls);
        }
        candidates
    }

    /// The completions of a partial path, as `file_completions` says with
    /// the directory and the prefix that `completion_dir` gives; `entries`
    /// lists that directory (names, and whether each is a directory).
    pub fn look_for_file_or_dir_starting_with(&self, cmd: &str, entries: &Vec<(String, bool)>) -> (res:
        Vec<String>)
        ensures
            strings_view(res@) == file_completions(
                completion_dir(cmd@).0,
                completion_dir(cmd@).1,
                entries@.map_values(|e: (String, bool)| (e.0@, e.1)),
            ),
    {
        let (dir, prefix) = file_completion_dir(cmd);
        let dir_chars = chars_of(dir.as_str());
        let prefix_chars = chars_of(prefix.as_str());
        let ghost es = entries@.map_values(|e: (String, bool)| (e.0@, e.1));
        let mut candidates: Vec<String> = Vec::new();
        let mut j: usize = 0;
        proof {
            assert(es.take(0) =~= Seq::<(Seq<char>, bool)>::empty());
        }
        while j < entries.len()
            invariant
                j <= entries@.len(),
                dir@ == dir_chars@,
                dir_chars@ == completion_dir(cmd@).0,
                prefix_chars@ == completion_dir(cmd@).1,
                es == entries@.map_values(|e: (String, bool)| (e.0@, e.1)),
                strings_view(candidates@) == file_completions(dir_chars@, prefix_chars@, es.take(j as int)),
            decreases entries.len() - j,
        {
            let name = chars_of(entries[j].0.as_str());
            let ghost rest = file_completions(dir_chars@, prefix_chars@, es.take(j as int));
            proof {
                assert(es.take(j + 1).drop_last() =~= es.take(j as int));
                assert(es[j as int] == (entries@[j as int].0@, entries@[j as int].1));
                assert(es.take(j + 1).last() == es[j as int]);
                assert(name@ == es[j as int].0);
            }
            if starts_with_chars(&name, &prefix_chars) {
                let mut path = dir.clone();
                let n = dir_chars.len();
                if !(n > 0 && dir_chars[n - 1] == '/') {
                    push_char(&mut path, '/');
                }
                path.append(entries[j].0.as_str());
                if entries[j].1 {
                    push_char(&mut path, '/');
                }
                let ghost before = candidates@;
                candidates.push(path);
                proof {
                    assert(path@ == (if es[j as int].1 { join_path(dir_chars@, name@) + seq!['/'] } else { join_path(dir_chars@, name@) }));
                    assert(strings_view(candidates@) =~= strings_view(before).push(path@));
                }
            }
            j = j + 1;
        }
        proof {
            assert(es.take(j as int) =~= es);
        }
        candidates
    }
}

/// The directory and the name prefix of a partial path, as `completion_dir`
/// says.
pub fn file_completion_dir(cmd: &str) -> (res: (String, String))
    ensures
        (res.0@, res.1@) == completion_dir(cmd@),
{
    let v = chars_of(cmd);
    if !crate::text::contains_char(&v, '/') {
        return (String::from_str("."), String::from_str(cmd));
    }
    let pieces = split_chars(&v, '/');
    proof {
        crate::text::lemma_split_pieces_nonempty(v@, char_pred('/'));
    }
    let ghost p = char_vecs_view(pieces@);
    let mut dir = String::new();
    let mut i: usize = 0;
    while i < pieces.len() - 1
        invariant
            pieces@.len() >= 1,
            i + 1 <= pieces@.len(),
            p == char_vecs_view(pieces@),
            dir@ == slashed(p.drop_last().take(i as int)),
        decreases pieces.len() - i,
    {
        let s = string_from_chars(&pieces[i]);
        dir.append(s.as_str());
        push_char(&mut dir, '/');
        proof {
            assert(p.drop_last().take(i + 1).drop_last() =~= p.drop_last().take(i as int));
            assert(p.drop_last().take(i + 1).last() == pieces@[i as int]@);
        }
        i = i + 1;
    }
    proof {
        assert(p.drop_last().take(i as int) =~= p.drop_last());
    }
    let last = string_from_chars(&pieces[pieces.len() - 1]);
    (dir, last)
}

} // verus!
