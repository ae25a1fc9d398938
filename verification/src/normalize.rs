//! Normal forms of commands and paths, and the first word of a command.
use vstd::prelude::*;
use vstd::string::StrSliceExecFns;

use crate::text::{
    chars_of, first_word, lower, lower_chars, strip, strip_chars, word_spans_of, words, Strip,
};

verus! {

/// A command as deny rules compare it: trimmed and ASCII lower-cased.
pub open spec fn normalized_command(s: Seq<char>) -> Seq<char> {
    lower(strip(s, Strip::Whitespace))
}

/// `s` with every backslash turned into a slash.
pub open spec fn unbackslash(s: Seq<char>) -> Seq<char> {
    s.map_values(|c: char| if c == '\\' { '/' } else { c })
}

/// A path as ask rules compare it: backslashes made slashes, trimmed of
/// whitespace, then of slashes at both ends, and ASCII lower-cased.
pub open spec fn normalized_path(s: Seq<char>) -> Seq<char> {
    lower(strip(strip(unbackslash(s), Strip::Whitespace), Strip::Slash))
}

/// The normal form of a command (see [`normalized_command`]).
pub fn normalize_command(value: &str) -> (r: Vec<char>)
    ensures
        r@ == normalized_command(value@),
{
    let v = chars_of(value);
    let t = strip_chars(&v, Strip::Whitespace);
    lower_chars(&t)
}

/// The first whitespace-separated word of a command, or the empty text.
pub fn first_token(command: &str) -> (r: String)
    ensures
        r@ == first_word(command@),
{
    let v = chars_of(command);
    let spans = word_spans_of(&v);
    if spans.len() == 0 {
        proof {
            assert(words(v@).len() == 0);
        }
        return String::new();
    }
    let (a, b) = spans[0];
    proof {
        assert(words(v@)[0] == v@.subrange(a as int, b as int));
    }
    command.substring_char(a, b).to_owned()
}

/// The normal form of a path (see [`normalized_path`]).
pub fn normalize_path_value(value: &str) -> (r: Vec<char>)
    ensures
        r@ == normalized_path(value@),
{
    let v = chars_of(value);
    let mut u: Vec<char> = Vec::new();
    let mut i: usize = 0;
    while i < v.len()
        invariant
            i <= v@.len(),
            u@ == unbackslash(v@.take(i as int)),
        decreases v.len() - i,
    {
        let c = v[i];
        u.push(if c == '\\' { '/' } else { c });
        proof {
            assert(unbackslash(v@.take(i + 1)) =~= unbackslash(v@.take(i as int)).push(
                if c == '\\' { '/' } else { c },
            ));
        }
        i = i + 1;
    }
    proof {
        assert(v@.take(v@.len() as int) =~= v@);
    }
    let t = strip_chars(&u, Strip::Whitespace);
    let t2 = strip_chars(&t, Strip::Slash);
    lower_chars(&t2)
}

} // verus!
