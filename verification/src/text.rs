//! Moving between strings and sequences of characters.

use vstd::prelude::*;
use vstd::std_specs::iter::IteratorSpec;

verus! {

/// `String::push` appends one character to the end of the string.
pub assume_specification[ String::push ](s: &mut String, c: char)
    ensures
        final(s)@ == old(s)@.push(c),
;

/// The characters of `text`, in order.
pub fn chars_of(text: &str) -> (chars: Vec<char>)
    ensures
        chars@ == text@,
{
    broadcast use vstd::string::group_string_axioms;

    let mut chars: Vec<char> = Vec::new();
    let mut it = text.chars();
    loop
        invariant_except_break
            it.obeys_prophetic_iter_laws(),
            it.decrease() is Some,
            chars@ + it.remaining() == text@,
        ensures
            chars@ == text@,
        decreases it.decrease()->0,
    {
        match it.next() {
            Some(c) => {
                chars.push(c);
            },
            None => {
                break ;
            },
        }
    }
    chars
}

/// The string made of `chars[from..to]`.
pub fn string_from_chars(chars: &Vec<char>, from: usize, to: usize) -> (s: String)
    requires
        from <= to <= chars.len(),
    ensures
        s@ == chars@.subrange(from as int, to as int),
{
    let mut s: String = String::new();
    let mut i: usize = from;
    while i < to
        invariant
            from <= i <= to <= chars.len(),
            s@ == chars@.subrange(from as int, i as int),
        decreases to - i,
    {
        s.push(chars[i]);
        i = i + 1;
    }
    s
}

} // verus!
