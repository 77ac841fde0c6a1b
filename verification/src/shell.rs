//! Quoting of remote paths for the remote shell, and the options of the
//! connection that every remote command shares.

use vstd::prelude::*;
use crate::text::{chars_of, push_text, string_of, texts};

verus! {

/// What stands for `c` between single quotes: a single quote closes the
/// quotes, is written escaped, and opens them again.
pub open spec fn single_quoted_char(c: char) -> Seq<char> {
    if c == '\'' {
        seq!['\'', '\\', '\'', '\'']
    } else {
        seq![c]
    }
}

/// What stands for `s` between single quotes.
pub open spec fn escape_single(s: Seq<char>) -> Seq<char>
    decreases s.len(),
{
    if s.len() == 0 {
        Seq::empty()
    } else {
        escape_single(s.drop_last()) + single_quoted_char(s.last())
    }
}

/// `s` as one single-quoted word of the shell.
pub open spec fn single_quoted(s: Seq<char>) -> Seq<char> {
    seq!['\''] + escape_single(s) + seq!['\'']
}

/// Whether `c` keeps a meaning between double quotes and is written after a backslash.
pub open spec fn is_special(c: char) -> bool {
    c == '\\' || c == '"' || c == '$' || c == '`'
}

/// What stands for `c` between double quotes.
pub open spec fn double_quoted_char(c: char) -> Seq<char> {
    if is_special(c) {
        seq!['\\', c]
    } else {
        seq![c]
    }
}

/// What stands for `s` between double quotes.
pub open spec fn escape_double(s: Seq<char>) -> Seq<char>
    decreases s.len(),
{
    if s.len() == 0 {
        Seq::empty()
    } else {
        escape_double(s.drop_last()) + double_quoted_char(s.last())
    }
}

/// A remote path as one word of the remote shell. A path from `~` is
/// written from `$HOME` between double quotes, so that the remote shell puts
/// the home directory in; any other path is single-quoted.
pub open spec fn remote_word(path: Seq<char>) -> Seq<char> {
    if path == seq!['~'] {
        "\"$HOME\""@
    } else if seq!['~', '/'].is_prefix_of(path) {
        "\"$HOME/"@ + escape_double(path.skip(2)) + seq!['"']
    } else {
        single_quoted(path)
    }
}

fn escape_single_chars(s: &Vec<char>) -> (out: Vec<char>)
    ensures
        out@ == single_quoted(s@),
{
    let mut out: Vec<char> = Vec::new();
    out.push('\'');
    let mut i: usize = 0;
    while i < s.len()
        invariant
            i <= s.len(),
            out@ == seq!['\''] + escape_single(s@.take(i as int)),
        decreases s.len() - i,
    {
        proof {
            assert(s@.take(i + 1).drop_last() == s@.take(i as int));
        }
        let c = s[i];
        if c == '\'' {
            out.push('\'');
            out.push('\\');
            out.push('\'');
            out.push('\'');
        } else {
            out.push(c);
        }
        proof {
            assert(out@ == seq!['\''] + (escape_single(s@.take(i as int)) + single_quoted_char(
                c,
            )));
        }
        i += 1;
    }
    proof {
        assert(s@.take(s.len() as int) == s@);
    }
    out.push('\'');
    out
}

/// Appends what stands for `s[from..]` between double quotes.
fn push_escaped_double(out: &mut Vec<char>, s: &Vec<char>, from: usize)
    requires
        from <= s.len(),
    ensures
        final(out)@ == old(out)@ + escape_double(s@.skip(from as int)),
{
    let ghost rest = s@.skip(from as int);
    let mut i: usize = from;
    while i < s.len()
        invariant
            from <= i <= s.len(),
            rest == s@.skip(from as int),
            out@ == old(out)@ + escape_double(rest.take(i - from)),
        decreases s.len() - i,
    {
        proof {
            assert(rest.take(i - from + 1).drop_last() == rest.take(i - from));
            assert(rest.take(i - from + 1).last() == s@[i as int]);
        }
        let c = s[i];
        if c == '\\' || c == '"' || c == '$' || c == '`' {
            out.push('\\');
            out.push(c);
        } else {
            out.push(c);
        }
        proof {
            assert(out@ == old(out)@ + (escape_double(rest.take(i - from)) + double_quoted_char(
                c,
            )));
        }
        i += 1;
    }
    proof {
        assert(rest.take(s.len() - from) == rest);
    }
}

/// Quotes `value` as one single-quoted word of the shell.
pub fn shell_escape(value: &str) -> (out: String)
    ensures
        out@ == single_quoted(value@),
{
    let s = chars_of(value);
    let out = escape_single_chars(&s);
    string_of(&out)
}

/// Escapes `value` for use between double quotes: a backslash goes before
/// each backslash, double quote, dollar sign and backtick.
pub fn shell_escape_double(value: &str) -> (out: String)
    ensures
        out@ == escape_double(value@),
{
    let s = chars_of(value);
    let mut out: Vec<char> = Vec::new();
    push_escaped_double(&mut out, &s, 0);
    proof {
        assert(s@.skip(0) == s@);
    }
    string_of(&out)
}

fn remote_word_chars(s: &Vec<char>) -> (out: Vec<char>)
    ensures
        out@ == remote_word(s@),
{
    if s.len() == 1 && s[0] == '~' {
        proof {
            assert(s@ =~= seq!['~']);
        }
        return chars_of("\"$HOME\"");
    }
    if s.len() >= 2 && s[0] == '~' && s[1] == '/' {
        proof {
            assert(seq!['~', '/'].is_prefix_of(s@));
            assert(s@ != seq!['~']) by {
                if s@ == seq!['~'] {
                    assert(s@.len() == 1);
                }
            }
        }
        let mut out = chars_of("\"$HOME/");
        push_escaped_double(&mut out, s, 2);
        out.push('"');
        return out;
    }
    proof {
        if seq!['~', '/'].is_prefix_of(s@) {
            assert(s@[0] == seq!['~', '/'][0]);
            assert(s@[1] == seq!['~', '/'][1]);
        }
        if s@ == seq!['~'] {
            assert(s@.len() == 1);
            assert(s@[0] == '~');
        }
    }
    escape_single_chars(s)
}

/// Quotes a remote path as one word of the remote shell.
pub fn remote_shell_path(path: &str) -> (out: String)
    ensures
        out@ == remote_word(path@),
{
    let s = chars_of(path);
    let out = remote_word_chars(&s);
    string_of(&out)
}

/// The options of every connection: one connection per host is opened,
/// shared by the commands that follow, and kept for 60 seconds after the last.
pub open spec fn connection_options() -> Seq<Seq<char>> {
    seq![
        "-o"@,
        "ControlMaster=auto"@,
        "-o"@,
        "ControlPersist=60s"@,
        "-o"@,
        "ControlPath=~/.ssh/cm-%r@%h:%p"@,
    ]
}

/// The options of every connection to a remote host.
pub fn ssh_args() -> (list: Vec<String>)
    ensures
        texts(list@) == connection_options(),
{
    let mut list: Vec<String> = Vec::new();
    proof {
        assert(texts(list@) =~= Seq::<Seq<char>>::empty());
    }
    push_text(&mut list, "-o");
    push_text(&mut list, "ControlMaster=auto");
    push_text(&mut list, "-o");
    push_text(&mut list, "ControlPersist=60s");
    push_text(&mut list, "-o");
    push_text(&mut list, "ControlPath=~/.ssh/cm-%r@%h:%p");
    proof {
        assert(texts(list@) =~= connection_options());
    }
    list
}

} // verus!
