//! The entity table: the five reserved characters and the names that escape them.
use vstd::prelude::*;

verus! {

/// Length of the longest full escape, leading `&` included (`&quot;`, `&apos;`).
pub const MAX_ESCAPE_LEN: usize = 6;

/// The name that escapes `c` (the text after `&`, ending in `;`), if `c` is reserved.
pub open spec fn spec_escape_name(c: char) -> Option<Seq<char>> {
    if c == '<' {
        Some(seq!['l', 't', ';'])
    } else if c == '>' {
        Some(seq!['g', 't', ';'])
    } else if c == '"' {
        Some(seq!['q', 'u', 'o', 't', ';'])
    } else if c == '\'' {
        Some(seq!['a', 'p', 'o', 's', ';'])
    } else if c == '&' {
        Some(seq!['a', 'm', 'p', ';'])
    } else {
        None
    }
}

/// The reserved character whose name is `name`, if any.
pub open spec fn spec_char_for(name: Seq<char>) -> Option<char> {
    if name == seq!['l', 't', ';'] {
        Some('<')
    } else if name == seq!['g', 't', ';'] {
        Some('>')
    } else if name == seq!['q', 'u', 'o', 't', ';'] {
        Some('"')
    } else if name == seq!['a', 'p', 'o', 's', ';'] {
        Some('\'')
    } else if name == seq!['a', 'm', 'p', ';'] {
        Some('&')
    } else {
        None
    }
}

/// Whether `c` is one of the five reserved characters.
pub open spec fn is_reserved(c: char) -> bool {
    spec_escape_name(c) is Some
}

/// Looks up the name that escapes `c`.
pub fn escape_name_for(c: char) -> (r: Option<&'static [char]>)
    ensures
        r is Some <==> spec_escape_name(c) is Some,
        r is Some ==> r->0@ == spec_escape_name(c)->0,
{
    match c {
        '<' => Some(&['l', 't', ';']),
        '>' => Some(&['g', 't', ';']),
        '"' => Some(&['q', 'u', 'o', 't', ';']),
        '\'' => Some(&['a', 'p', 'o', 's', ';']),
        '&' => Some(&['a', 'm', 'p', ';']),
        _ => None,
    }
}

/// Whether the chars of `name` are exactly `lit`.
fn spells(name: &[char], lit: &[char]) -> (r: bool)
    ensures
        r == (name@ == lit@),
{
    if name.len() != lit.len() {
        return false;
    }
    let mut i: usize = 0;
    while i < name.len()
        invariant
            name@.len() == lit@.len(),
            i <= name@.len(),
            forall|j: int| 0 <= j < i ==> name@[j] == lit@[j],
        decreases name@.len() - i,
    {
        if name[i] != lit[i] {
            return false;
        }
        i = i + 1;
    }
    assert(name@ =~= lit@);
    true
}

/// Looks up the reserved character that the name `name` (text after `&`) escapes.
pub fn char_for(name: &[char]) -> (r: Option<char>)
    ensures
        r == spec_char_for(name@),
{
    if spells(name, &['l', 't', ';']) {
        Some('<')
    } else if spells(name, &['g', 't', ';']) {
        Some('>')
    } else if spells(name, &['q', 'u', 'o', 't', ';']) {
        Some('"')
    } else if spells(name, &['a', 'p', 'o', 's', ';']) {
        Some('\'')
    } else if spells(name, &['a', 'm', 'p', ';']) {
        Some('&')
    } else {
        None
    }
}

} // verus!
