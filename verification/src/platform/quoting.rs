//! Quoting for POSIX shells and escaping for XML, as used in the files that
//! integrate the program with file managers.

use vstd::prelude::*;
use crate::text::{chars_of, push_char, push_str};

verus! {

/// How a character stands inside a single-quoted shell word.
pub open spec fn sh_char(c: char) -> Seq<char> {
    if c == '\'' {
        seq!['\'', '\\', '\'', '\'']
    } else {
        seq![c]
    }
}

pub open spec fn sh_body(s: Seq<char>) -> Seq<char>
    decreases s.len(),
{
    if s.len() == 0 {
        Seq::empty()
    } else {
        sh_body(s.drop_last()) + sh_char(s.last())
    }
}

/// `s` as one single-quoted shell word: each `'` becomes `'\''`.
pub open spec fn sh_quoted(s: Seq<char>) -> Seq<char> {
    seq!['\''] + sh_body(s) + seq!['\'']
}

/// How a character stands in XML text.
pub open spec fn xml_char(c: char) -> Seq<char> {
    if c == '&' {
        seq!['&', 'a', 'm', 'p', ';']
    } else if c == '<' {
        seq!['&', 'l', 't', ';']
    } else if c == '>' {
        seq!['&', 'g', 't', ';']
    } else if c == '"' {
        seq!['&', 'q', 'u', 'o', 't', ';']
    } else {
        seq![c]
    }
}

/// `s` with `&`, `<`, `>` and `"` escaped.
pub open spec fn xml_escaped(s: Seq<char>) -> Seq<char>
    decreases s.len(),
{
    if s.len() == 0 {
        Seq::empty()
    } else {
        xml_escaped(s.drop_last()) + xml_char(s.last())
    }
}

/// Quotes `s` as one word for a POSIX shell.
pub fn sh_quote(s: &str) -> (r: String)
    ensures
        r@ == sh_quoted(s@),
{
    let cs = chars_of(s);
    let mut r = String::new();
    push_char(&mut r, '\'');
    let mut i: usize = 0;
    while i < cs.len()
        invariant
            cs@ == s@,
            i <= cs@.len(),
            r@ == seq!['\''] + sh_body(cs@.take(i as int)),
        decreases cs@.len() - i,
    {
        assert(cs@.take(i + 1).drop_last() =~= cs@.take(i as int));
        if cs[i] == '\'' {
            push_char(&mut r, '\'');
            push_char(&mut r, '\\');
            push_char(&mut r, '\'');
            push_char(&mut r, '\'');
        } else {
            push_char(&mut r, cs[i]);
        }
        assert(r@ =~= seq!['\''] + sh_body(cs@.take(i + 1)));
        i += 1;
    }
    assert(cs@.take(cs@.len() as int) =~= s@);
    push_char(&mut r, '\'');
    r
}

/// Escapes `s` for XML text and attribute values.
pub fn xml_escape(s: &str) -> (r: String)
    ensures
        r@ == xml_escaped(s@),
{
    let cs = chars_of(s);
    let mut r = String::new();
    let mut i: usize = 0;
    while i < cs.len()
        invariant
            cs@ == s@,
            i <= cs@.len(),
            r@ == xml_escaped(cs@.take(i as int)),
        decreases cs@.len() - i,
    {
        assert(cs@.take(i + 1).drop_last() =~= cs@.take(i as int));
        let c = cs[i];
        if c == '&' {
            push_char(&mut r, '&');
            push_char(&mut r, 'a');
            push_char(&mut r, 'm');
            push_char(&mut r, 'p');
            push_char(&mut r, ';');
        } else if c == '<' {
            push_char(&mut r, '&');
            push_char(&mut r, 'l');
            push_char(&mut r, 't');
            push_char(&mut r, ';');
        } else if c == '>' {
            push_char(&mut r, '&');
            push_char(&mut r, 'g');
            push_char(&mut r, 't');
            push_char(&mut r, ';');
        } else if c == '"' {
            push_char(&mut r, '&');
            push_char(&mut r, 'q');
            push_char(&mut r, 'u');
            push_char(&mut r, 'o');
            push_char(&mut r, 't');
            push_char(&mut r, ';');
        } else {
            push_char(&mut r, c);
        }
        assert(r@ =~= xml_escaped(cs@.take(i + 1)));
        i += 1;
    }
    assert(cs@.take(cs@.len() as int) =~= s@);
    r
}

} // verus!
