use vstd::prelude::*;

use crate::text::{chars_match, chars_of};

verus! {

/// The special words of the language.
#[derive(Clone, Debug, Copy, PartialEq, Eq, Structural)]
pub enum Keyword {
    // Declarations
    Let,
    Mut,
    SetBang,
    Def,
    Closure,
    // Control flows
    If,
    Else,
    Elif,
    Block,
    Or,
    And,
    Not,
}

/// The keyword that `s` spells, if any:
/// `let`, `mut`, `set!`, `def`, `fn`, `if`, `:else`, `:elif`, `block`, `or`, `and`, `not`.
pub open spec fn keyword_of(s: Seq<char>) -> Option<Keyword> {
    if s == seq!['l', 'e', 't'] {
        Some(Keyword::Let)
    } else if s == seq!['m', 'u', 't'] {
        Some(Keyword::Mut)
    } else if s == seq!['s', 'e', 't', '!'] {
        Some(Keyword::SetBang)
    } else if s == seq!['d', 'e', 'f'] {
        Some(Keyword::Def)
    } else if s == seq!['f', 'n'] {
        Some(Keyword::Closure)
    } else if s == seq!['i', 'f'] {
        Some(Keyword::If)
    } else if s == seq![':', 'e', 'l', 's', 'e'] {
        Some(Keyword::Else)
    } else if s == seq![':', 'e', 'l', 'i', 'f'] {
        Some(Keyword::Elif)
    } else if s == seq!['b', 'l', 'o', 'c', 'k'] {
        Some(Keyword::Block)
    } else if s == seq!['o', 'r'] {
        Some(Keyword::Or)
    } else if s == seq!['a', 'n', 'd'] {
        Some(Keyword::And)
    } else if s == seq!['n', 'o', 't'] {
        Some(Keyword::Not)
    } else {
        None
    }
}

/// The keyword that the characters `cs` spell, if any.
pub fn keyword_of_chars(cs: &[char]) -> (r: Option<Keyword>)
    ensures
        r == keyword_of(cs@),
{
    let w_let = ['l', 'e', 't'];
    let w_mut = ['m', 'u', 't'];
    let w_set = ['s', 'e', 't', '!'];
    let w_def = ['d', 'e', 'f'];
    let w_fn = ['f', 'n'];
    let w_if = ['i', 'f'];
    let w_else = [':', 'e', 'l', 's', 'e'];
    let w_elif = [':', 'e', 'l', 'i', 'f'];
    let w_block = ['b', 'l', 'o', 'c', 'k'];
    let w_or = ['o', 'r'];
    let w_and = ['a', 'n', 'd'];
    let w_not = ['n', 'o', 't'];
    assert(w_let@ =~= seq!['l', 'e', 't']);
    assert(w_mut@ =~= seq!['m', 'u', 't']);
    assert(w_set@ =~= seq!['s', 'e', 't', '!']);
    assert(w_def@ =~= seq!['d', 'e', 'f']);
    assert(w_fn@ =~= seq!['f', 'n']);
    assert(w_if@ =~= seq!['i', 'f']);
    assert(w_else@ =~= seq![':', 'e', 'l', 's', 'e']);
    assert(w_elif@ =~= seq![':', 'e', 'l', 'i', 'f']);
    assert(w_block@ =~= seq!['b', 'l', 'o', 'c', 'k']);
    assert(w_or@ =~= seq!['o', 'r']);
    assert(w_and@ =~= seq!['a', 'n', 'd']);
    assert(w_not@ =~= seq!['n', 'o', 't']);
    if chars_match(cs, &w_let) {
        Some(Keyword::Let)
    } else if chars_match(cs, &w_mut) {
        Some(Keyword::Mut)
    } else if chars_match(cs, &w_set) {
        Some(Keyword::SetBang)
    } else if chars_match(cs, &w_def) {
        Some(Keyword::Def)
    } else if chars_match(cs, &w_fn) {
        Some(Keyword::Closure)
    } else if chars_match(cs, &w_if) {
        Some(Keyword::If)
    } else if chars_match(cs, &w_else) {
        Some(Keyword::Else)
    } else if chars_match(cs, &w_elif) {
        Some(Keyword::Elif)
    } else if chars_match(cs, &w_block) {
        Some(Keyword::Block)
    } else if chars_match(cs, &w_or) {
        Some(Keyword::Or)
    } else if chars_match(cs, &w_and) {
        Some(Keyword::And)
    } else if chars_match(cs, &w_not) {
        Some(Keyword::Not)
    } else {
        None
    }
}

/// Whether `symbol` is one of the keywords.
pub fn is_keyword(symbol: &str) -> (r: bool)
    ensures
        r == keyword_of(symbol@) is Some,
{
    let cs = chars_of(symbol);
    keyword_of_chars(cs.as_slice()).is_some()
}

/// The keyword that `symbol` spells; `symbol` must be a keyword.
pub fn parse_keyword(symbol: &str) -> (r: Keyword)
    requires
        keyword_of(symbol@) is Some,
    ensures
        keyword_of(symbol@) == Some(r),
{
    let cs = chars_of(symbol);
    match keyword_of_chars(cs.as_slice()) {
        Some(k) => k,
        None => {
            assert(false);
            Keyword::Let
        },
    }
}

} // verus!
